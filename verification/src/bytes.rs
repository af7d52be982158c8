//! Byte strings: numbers in little-endian order, blocks of equal width, and
//! items that stand behind their length.

use vstd::prelude::*;

verus! {

/// `256` to the power `width`: the number of values that `width` bytes can hold.
pub open spec fn pow256(width: nat) -> nat
    decreases width,
{
    if width == 0 {
        1
    } else {
        256 * pow256((width - 1) as nat)
    }
}

/// The `width` low-order bytes of `n`, least significant byte first.
pub open spec fn le_bytes(n: nat, width: nat) -> Seq<u8>
    decreases width,
{
    if width == 0 {
        Seq::empty()
    } else {
        seq![(n % 256) as u8] + le_bytes(n / 256, (width - 1) as nat)
    }
}

/// The number that the bytes of `s` spell, least significant byte first.
pub open spec fn le_value(s: Seq<u8>) -> nat
    decreases s.len(),
{
    if s.len() == 0 {
        0
    } else {
        s[0] as nat + 256 * le_value(s.drop_first())
    }
}

/// `le_bytes` yields exactly `width` bytes.
pub proof fn lemma_le_bytes_len(n: nat, width: nat)
    ensures
        le_bytes(n, width).len() == width,
    decreases width,
{
    if width > 0 {
        lemma_le_bytes_len(n / 256, (width - 1) as nat);
    }
}

/// A number that fits in `width` bytes is read back from its bytes.
pub proof fn lemma_le_value_of_le_bytes(n: nat, width: nat)
    requires
        n < pow256(width),
    ensures
        le_value(le_bytes(n, width)) == n,
    decreases width,
{
    if width > 0 {
        let rest = le_bytes(n / 256, (width - 1) as nat);
        let all = le_bytes(n, width);
        assert(n / 256 < pow256((width - 1) as nat)) by (nonlinear_arith)
            requires
                n < 256 * pow256((width - 1) as nat),
        ;
        lemma_le_value_of_le_bytes(n / 256, (width - 1) as nat);
        assert(all.drop_first() =~= rest);
        assert(all[0] == (n % 256) as u8);
        assert(n == (n % 256) + 256 * (n / 256)) by (nonlinear_arith);
    } else {
        assert(le_bytes(n, width).len() == 0);
    }
}

/// Bytes are spelled back from the number they spell.
pub proof fn lemma_le_bytes_of_le_value(s: Seq<u8>)
    ensures
        le_value(s) < pow256(s.len()),
        le_bytes(le_value(s), s.len()) == s,
    decreases s.len(),
{
    if s.len() > 0 {
        let tail = s.drop_first();
        lemma_le_bytes_of_le_value(tail);
        let v = le_value(s);
        let t = le_value(tail);
        assert(v == s[0] as nat + 256 * t);
        assert(v % 256 == s[0] as nat && v / 256 == t) by (nonlinear_arith)
            requires
                v == s[0] as nat + 256 * t,
                (s[0] as nat) < 256,
        ;
        assert(v < 256 * pow256(tail.len())) by (nonlinear_arith)
            requires
                v == s[0] as nat + 256 * t,
                (s[0] as nat) < 256,
                t < pow256(tail.len()),
        ;
        assert(le_bytes(v, s.len()) =~= seq![s[0]] + tail);
        assert(seq![s[0]] + tail =~= s);
    } else {
        assert(le_bytes(le_value(s), s.len()) =~= s);
    }
}

/// More bytes hold more values.
pub proof fn lemma_pow256_monotone(narrow: nat, wide: nat)
    requires
        narrow <= wide,
    ensures
        pow256(narrow) <= pow256(wide),
        pow256(narrow) >= 1,
    decreases wide,
{
    if narrow < wide {
        lemma_pow256_monotone(narrow, (wide - 1) as nat);
    } else if narrow > 0 {
        lemma_pow256_monotone((narrow - 1) as nat, (wide - 1) as nat);
    }
}

/// Four bytes hold every number below `2^32`, eight every number below `2^64`.
pub proof fn lemma_pow256_values()
    ensures
        pow256(1) == 0x100,
        pow256(4) == 0x1_0000_0000,
        pow256(8) == 0x1_0000_0000_0000_0000,
{
    reveal_with_fuel(pow256, 9);
}

/// The `width` low-order bytes of `n`, least significant first.
pub fn le_bytes_of(n: u64, width: usize) -> (out: Vec<u8>)
    ensures
        out@ == le_bytes(n as nat, width as nat),
{
    let mut out: Vec<u8> = Vec::new();
    let mut rest: u64 = n;
    let mut i: usize = 0;
    while i < width
        invariant
            i <= width,
            out@.len() == i,
            le_bytes(n as nat, width as nat) == out@ + le_bytes(rest as nat, (width - i) as nat),
        decreases width - i,
    {
        let low: u8 = (rest % 256) as u8;
        proof {
            let tail = le_bytes((rest / 256) as nat, (width - i - 1) as nat);
            assert(le_bytes(rest as nat, (width - i) as nat) == seq![low] + tail);
            assert(out@ + (seq![low] + tail) =~= out@.push(low) + tail);
        }
        out.push(low);
        rest = rest / 256;
        i = i + 1;
    }
    proof {
        assert(le_bytes(rest as nat, 0) =~= Seq::<u8>::empty());
        assert(out@ + Seq::<u8>::empty() =~= out@);
    }
    out
}

/// The number that at most eight bytes spell, least significant byte first.
pub fn le_value_of(bytes: &[u8]) -> (value: u64)
    requires
        bytes@.len() <= 8,
    ensures
        value == le_value(bytes@),
{
    let mut value: u64 = 0;
    let mut i: usize = bytes.len();
    proof {
        lemma_pow256_values();
        assert(bytes@.subrange(i as int, bytes@.len() as int) =~= Seq::<u8>::empty());
    }
    while i > 0
        invariant
            i <= bytes@.len() <= 8,
            value == le_value(bytes@.subrange(i as int, bytes@.len() as int)),
            value < pow256((bytes@.len() - i) as nat),
        decreases i,
    {
        i = i - 1;
        proof {
            let tail = bytes@.subrange(i + 1, bytes@.len() as int);
            let here = bytes@.subrange(i as int, bytes@.len() as int);
            assert(here.drop_first() =~= tail);
            assert(here[0] == bytes@[i as int]);
            let width = (bytes@.len() - i - 1) as nat;
            lemma_pow256_monotone(width, 7);
            lemma_pow256_values();
            assert(pow256((width + 1) as nat) == 256 * pow256(width));
            assert(bytes@[i as int] as nat + 256 * value < 256 * pow256(width)) by (nonlinear_arith)
                requires
                    (bytes@[i as int] as nat) < 256,
                    value < pow256(width),
            ;
            assert(256 * pow256(width) <= 256 * pow256(7)) by (nonlinear_arith)
                requires
                    pow256(width) <= pow256(7),
            ;
            assert(256 * pow256(7) == pow256(8));
        }
        value = bytes[i] as u64 + 256 * value;
    }
    assert(bytes@.subrange(0, bytes@.len() as int) =~= bytes@);
    value
}

/// The byte strings that a vector of byte vectors holds.
pub open spec fn byte_strings(items: Seq<Vec<u8>>) -> Seq<Seq<u8>> {
    items.map_values(|item: Vec<u8>| item@)
}

/// Where every item has `width` bytes, the concatenation of the items has
/// `width` bytes for each, and its `i`-th block of `width` bytes is item `i`.
pub proof fn lemma_flatten_blocks(items: Seq<Seq<u8>>, width: nat)
    requires
        forall|i: int| 0 <= i < items.len() ==> (#[trigger] items[i]).len() == width,
    ensures
        items.flatten().len() == items.len() * width,
        forall|i: int|
            0 <= i < items.len() ==> #[trigger] items.flatten().subrange(
                i * width,
                i * width + width,
            ) == items[i],
    decreases items.len(),
{
    if items.len() == 0 {
        assert(items.flatten().len() == 0);
    } else {
        let front = items.drop_last();
        let last = items.last();
        lemma_flatten_blocks(front, width);
        front.lemma_flatten_push(last);
        assert(front.push(last) =~= items);
        let flat = items.flatten();
        assert(flat =~= front.flatten() + last);
        assert(front.len() * width + width == items.len() * width) by (nonlinear_arith)
            requires
                front.len() + 1 == items.len(),
        ;
        assert forall|i: int| 0 <= i < items.len() implies #[trigger] flat.subrange(
            i * width,
            i * width + width,
        ) == items[i] by {
            if i < front.len() {
                assert(i * width + width <= front.len() * width) by (nonlinear_arith)
                    requires
                        0 <= i < front.len(),
                ;
                assert(0 <= i * width) by (nonlinear_arith)
                    requires
                        0 <= i,
                ;
                assert(flat.subrange(i * width, i * width + width) =~= front.flatten().subrange(
                    i * width,
                    i * width + width,
                ));
                assert(front[i] == items[i]);
            } else {
                assert(i == front.len());
                assert(flat.subrange(i * width, i * width + width) =~= last);
            }
        }
    }
}

/// `count` zero bytes.
pub open spec fn zeros(count: nat) -> Seq<u8> {
    Seq::new(count, |i: int| 0u8)
}

/// Appends `count` zero bytes to `out`.
pub fn append_zeros(out: &mut Vec<u8>, count: usize)
    requires
        old(out)@.len() + count <= usize::MAX,
    ensures
        final(out)@ == old(out)@ + zeros(count as nat),
{
    let target: usize = out.len() + count;
    out.resize(target, 0u8);
    assert(out@ =~= old(out)@ + zeros(count as nat));
}

/// `data` behind its length, the length in eight bytes.
pub open spec fn length_prefixed(data: Seq<u8>) -> Seq<u8> {
    le_bytes(data.len(), 8) + data
}

/// The items one after the other, each behind its length.
pub open spec fn length_prefixed_all(items: Seq<Seq<u8>>) -> Seq<u8>
    decreases items.len(),
{
    if items.len() == 0 {
        Seq::empty()
    } else {
        length_prefixed_all(items.drop_last()) + length_prefixed(items.last())
    }
}

/// The first item behind its length comes first, then the others.
pub proof fn lemma_length_prefixed_all_front(items: Seq<Seq<u8>>)
    requires
        items.len() > 0,
    ensures
        length_prefixed_all(items) == length_prefixed(items.first()) + length_prefixed_all(
            items.drop_first(),
        ),
    decreases items.len(),
{
    if items.len() == 1 {
        assert(items.drop_last() =~= Seq::<Seq<u8>>::empty());
        assert(items.drop_first() =~= Seq::<Seq<u8>>::empty());
        assert(length_prefixed_all(items) =~= length_prefixed(items.first())
            + length_prefixed_all(items.drop_first()));
    } else {
        let front = items.drop_last();
        let tail = items.drop_first();
        lemma_length_prefixed_all_front(front);
        assert(front.drop_first() =~= tail.drop_last());
        assert(front.first() == items.first());
        assert(tail.last() == items.last());
        assert(length_prefixed_all(items) =~= length_prefixed(items.first())
            + length_prefixed_all(tail));
    }
}

/// Items that each have less than `2^64` bytes can be told from the bytes
/// that hold them one after the other, each behind its length.
pub proof fn lemma_length_prefixed_all_injective(first: Seq<Seq<u8>>, second: Seq<Seq<u8>>)
    requires
        forall|i: int| 0 <= i < first.len() ==> (#[trigger] first[i]).len() <= u64::MAX,
        forall|i: int| 0 <= i < second.len() ==> (#[trigger] second[i]).len() <= u64::MAX,
        length_prefixed_all(first) == length_prefixed_all(second),
    ensures
        first == second,
    decreases first.len(),
{
    lemma_pow256_values();
    if first.len() == 0 || second.len() == 0 {
        if first.len() > 0 {
            lemma_length_prefixed_all_front(first);
            lemma_le_bytes_len(first.first().len(), 8);
        }
        if second.len() > 0 {
            lemma_length_prefixed_all_front(second);
            lemma_le_bytes_len(second.first().len(), 8);
        }
        assert(first =~= second);
    } else {
        let a = first.first();
        let b = second.first();
        let all = length_prefixed_all(first);
        lemma_length_prefixed_all_front(first);
        lemma_length_prefixed_all_front(second);
        lemma_le_bytes_len(a.len(), 8);
        lemma_le_bytes_len(b.len(), 8);
        lemma_le_value_of_le_bytes(a.len(), 8);
        lemma_le_value_of_le_bytes(b.len(), 8);
        assert(all.subrange(0, 8) =~= le_bytes(a.len(), 8));
        assert(all.subrange(0, 8) =~= le_bytes(b.len(), 8));
        assert(a.len() == b.len());
        assert(all.subrange(8, 8 + a.len() as int) =~= a);
        assert(all.subrange(8, 8 + b.len() as int) =~= b);
        assert(all.subrange(8 + a.len() as int, all.len() as int) =~= length_prefixed_all(
            first.drop_first(),
        ));
        assert(all.subrange(8 + b.len() as int, all.len() as int) =~= length_prefixed_all(
            second.drop_first(),
        ));
        assert forall|i: int| 0 <= i < first.drop_first().len() implies (
        #[trigger] first.drop_first()[i]).len() <= u64::MAX by {
            assert(first.drop_first()[i] == first[i + 1]);
        }
        assert forall|i: int| 0 <= i < second.drop_first().len() implies (
        #[trigger] second.drop_first()[i]).len() <= u64::MAX by {
            assert(second.drop_first()[i] == second[i + 1]);
        }
        lemma_length_prefixed_all_injective(first.drop_first(), second.drop_first());
        assert(first =~= seq![a] + first.drop_first());
        assert(second =~= seq![b] + second.drop_first());
    }
}

/// A head of known length, followed by items that are each behind their
/// length, can be told apart from what follows it, and the items from each other.
pub proof fn lemma_headed_stream_injective(
    head_a: Seq<u8>,
    items_a: Seq<Seq<u8>>,
    head_b: Seq<u8>,
    items_b: Seq<Seq<u8>>,
)
    requires
        head_a.len() == head_b.len(),
        forall|i: int| 0 <= i < items_a.len() ==> (#[trigger] items_a[i]).len() <= u64::MAX,
        forall|i: int| 0 <= i < items_b.len() ==> (#[trigger] items_b[i]).len() <= u64::MAX,
        head_a + length_prefixed_all(items_a) == head_b + length_prefixed_all(items_b),
    ensures
        head_a == head_b,
        items_a == items_b,
{
    let bytes = head_a + length_prefixed_all(items_a);
    let n = head_a.len() as int;
    assert(bytes.subrange(0, n) =~= head_a);
    assert(bytes.subrange(0, n) =~= head_b);
    assert(bytes.subrange(n, bytes.len() as int) =~= length_prefixed_all(items_a));
    assert(bytes.subrange(n, bytes.len() as int) =~= length_prefixed_all(items_b));
    lemma_length_prefixed_all_injective(items_a, items_b);
}

/// Appends `data` behind its length to `out`.
pub fn append_length_prefixed(out: &mut Vec<u8>, data: &[u8])
    ensures
        final(out)@ == old(out)@ + length_prefixed(data@),
{
    let length = le_bytes_of(data.len() as u64, 8);
    append_bytes(out, length.as_slice());
    append_bytes(out, data);
    assert(out@ =~= old(out)@ + length_prefixed(data@));
}

/// Appends the bytes of `src` to `out`.
pub fn append_bytes(out: &mut Vec<u8>, src: &[u8])
    ensures
        final(out)@ == old(out)@ + src@,
{
    out.extend_from_slice(src);
    assert(out@ =~= old(out)@ + src@);
}

} // verus!
