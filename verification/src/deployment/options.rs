//! What the operator says of a deployment: where it goes and what it may cost.

use vstd::prelude::*;
use vstd::string::StringExecFns;

verus! {

/// The environment that a deployment goes to. Each has a record of
/// deployments of its own.
#[derive(Clone, Copy, Debug, PartialEq, Eq, Structural)]
pub enum DeployEnv {
    Dev,
    Production,
}

/// The environment that a name stands for.
pub open spec fn deploy_env_named(name: Seq<char>) -> Option<DeployEnv> {
    if name == "dev"@ {
        Some(DeployEnv::Dev)
    } else if name == "production"@ {
        Some(DeployEnv::Production)
    } else {
        None
    }
}

impl DeployEnv {
    /// The environment that `name` stands for, letter for letter: `dev` or
    /// `production`.
    pub fn from_name(name: &str) -> (result: Option<DeployEnv>)
        ensures
            result == deploy_env_named(name@),
    {
        let name = name.to_owned();
        if name == String::from_str("dev") {
            Some(DeployEnv::Dev)
        } else if name == String::from_str("production") {
            Some(DeployEnv::Production)
        } else {
            None
        }
    }

    /// The name of the environment, which is also the name of the directory
    /// of its record.
    pub fn name(&self) -> (name: &'static str)
        ensures
            deploy_env_named(name@) == Some(*self),
    {
        proof {
            reveal_strlit("dev");
            reveal_strlit("production");
            assert("dev"@.len() != "production"@.len());
        }
        match self {
            DeployEnv::Dev => "dev",
            DeployEnv::Production => "production",
        }
    }
}

/// Number of the smallest units in one unit of capacity.
pub const SHANNONS_PER_CKB: u64 = 100_000_000;

/// Number of decimals that an amount may have.
pub const DECIMALS: usize = 8;

/// The character of the decimal point.
pub const POINT: u8 = 0x2e;

/// `byte` is one of the characters `0` to `9`.
pub open spec fn is_digit(byte: u8) -> bool {
    0x30 <= byte <= 0x39
}

/// Every byte of `text` is a digit.
pub open spec fn all_digits(text: Seq<u8>) -> bool {
    forall|i: int| 0 <= i < text.len() ==> is_digit(#[trigger] text[i])
}

/// The number that the digits of `text` spell; zero where there is none.
pub open spec fn decimal(text: Seq<u8>) -> nat
    decreases text.len(),
{
    if text.len() == 0 {
        0
    } else {
        decimal(text.drop_last()) * 10 + (text.last() - 0x30) as nat
    }
}

/// Ten to the power `exponent`.
pub open spec fn pow10(exponent: nat) -> nat
    decreases exponent,
{
    if exponent == 0 {
        1
    } else {
        10 * pow10((exponent - 1) as nat)
    }
}

/// The index of the first decimal point of `text`, or its length where it
/// has none.
pub open spec fn point_index(text: Seq<u8>) -> int
    decreases text.len(),
{
    if text.len() == 0 {
        0
    } else if text[0] == POINT {
        0
    } else {
        1 + point_index(text.drop_first())
    }
}

/// The digits before the decimal point.
pub open spec fn whole_part(text: Seq<u8>) -> Seq<u8> {
    text.subrange(0, point_index(text))
}

/// The digits after the decimal point; none where the text has no point.
pub open spec fn fraction_part(text: Seq<u8>) -> Seq<u8> {
    if point_index(text) < text.len() {
        text.subrange(point_index(text) + 1, text.len() as int)
    } else {
        Seq::empty()
    }
}

/// `text` spells an amount: digits, of which there is at least one, and
/// after them at most a decimal point and up to eight more digits.
pub open spec fn spells_amount(text: Seq<u8>) -> bool {
    &&& whole_part(text).len() > 0
    &&& all_digits(whole_part(text))
    &&& all_digits(fraction_part(text))
    &&& fraction_part(text).len() <= DECIMALS
}

/// The amount that `text` spells, in the smallest units: `1.5` is one and a
/// half times `SHANNONS_PER_CKB`.
pub open spec fn amount_spelled(text: Seq<u8>) -> nat
    recommends
        spells_amount(text),
{
    decimal(whole_part(text)) * SHANNONS_PER_CKB as nat + decimal(fraction_part(text)) * pow10(
        (DECIMALS - fraction_part(text).len()) as nat,
    )
}

/// The powers of ten up to the eighth.
pub proof fn lemma_pow10_values()
    ensures
        pow10(0) == 1,
        pow10(1) == 10,
        pow10(2) == 100,
        pow10(3) == 1_000,
        pow10(4) == 10_000,
        pow10(5) == 100_000,
        pow10(6) == 1_000_000,
        pow10(7) == 10_000_000,
        pow10(8) == 100_000_000,
{
    reveal_with_fuel(pow10, 9);
}

/// Digits spell a number below the power of ten of their count.
pub proof fn lemma_decimal_bound(text: Seq<u8>)
    requires
        all_digits(text),
    ensures
        decimal(text) < pow10(text.len()),
    decreases text.len(),
{
    if text.len() > 0 {
        let front = text.drop_last();
        assert forall|i: int| 0 <= i < front.len() implies is_digit(#[trigger] front[i]) by {
            assert(front[i] == text[i]);
        }
        lemma_decimal_bound(front);
        assert(is_digit(text[text.len() - 1]));
        assert(decimal(front) * 10 + 9 < 10 * pow10(front.len())) by (nonlinear_arith)
            requires
                decimal(front) < pow10(front.len()),
        ;
    }
}

/// The first point of a text stands where `point_index` says, and no point
/// stands before it.
pub proof fn lemma_point_index(text: Seq<u8>)
    ensures
        0 <= point_index(text) <= text.len(),
        point_index(text) < text.len() ==> text[point_index(text)] == POINT,
        forall|i: int| 0 <= i < point_index(text) ==> #[trigger] text[i] != POINT,
    decreases text.len(),
{
    if text.len() > 0 && text[0] != POINT {
        let tail = text.drop_first();
        lemma_point_index(tail);
        assert forall|i: int| 0 <= i < point_index(text) implies #[trigger] text[i] != POINT by {
            if i > 0 {
                assert(tail[i - 1] == text[i]);
            }
        }
    }
}

/// The index of the first decimal point of `text`.
fn find_point(text: &[u8]) -> (index: usize)
    ensures
        index == point_index(text@),
        index <= text@.len(),
{
    let mut i: usize = 0;
    proof {
        lemma_point_index(text@);
    }
    while i < text.len() && text[i] != POINT
        invariant
            i <= text@.len(),
            forall|j: int| 0 <= j < i ==> #[trigger] text@[j] != POINT,
        decreases text@.len() - i,
    {
        i = i + 1;
    }
    proof {
        let found = point_index(text@);
        if found < i {
            assert(text@[found] == POINT);
        }
        if i < found {
            assert(text@[i as int] != POINT);
        }
    }
    i
}

/// The number that the digits from `start` to `end` spell, where it is at
/// most `limit`.
fn read_digits(text: &[u8], start: usize, end: usize, limit: u64) -> (result: Option<u64>)
    requires
        start <= end <= text@.len(),
        limit <= u64::MAX / 10 - 1,
    ensures
        match result {
            Some(value) => {
                &&& all_digits(text@.subrange(start as int, end as int))
                &&& value == decimal(text@.subrange(start as int, end as int))
                &&& value <= limit
            },
            None => {
                ||| !all_digits(text@.subrange(start as int, end as int))
                ||| decimal(text@.subrange(start as int, end as int)) > limit
            },
        },
{
    let ghost digits = text@.subrange(start as int, end as int);
    let mut value: u64 = 0;
    let mut i: usize = start;
    assert(digits.subrange(0, 0) =~= Seq::<u8>::empty());
    while i < end
        invariant
            start <= i <= end <= text@.len(),
            limit <= u64::MAX / 10 - 1,
            digits == text@.subrange(start as int, end as int),
            all_digits(digits.subrange(0, i - start)),
            value == decimal(digits.subrange(0, i - start)),
            value <= limit,
        decreases end - i,
    {
        let byte: u8 = text[i];
        let ghost done = digits.subrange(0, i - start);
        let ghost next = digits.subrange(0, i - start + 1);
        proof {
            assert(next.drop_last() =~= done);
            assert(next.last() == byte);
            assert(digits[i - start] == byte);
        }
        if byte < 0x30 || byte > 0x39 {
            return None;
        }
        let grown: u64 = value * 10 + (byte - 0x30) as u64;
        proof {
            assert forall|j: int| 0 <= j < next.len() implies is_digit(#[trigger] next[j]) by {
                if j < done.len() {
                    assert(done[j] == next[j]);
                }
            }
        }
        if grown > limit {
            proof {
                lemma_decimal_grows(digits, i - start + 1);
            }
            return None;
        }
        value = grown;
        i = i + 1;
    }
    assert(digits.subrange(0, end - start) =~= digits);
    Some(value)
}

/// More digits spell no smaller number.
pub proof fn lemma_decimal_grows(text: Seq<u8>, count: int)
    requires
        0 <= count <= text.len(),
    ensures
        decimal(text.subrange(0, count)) <= decimal(text),
    decreases text.len() - count,
{
    if count < text.len() {
        lemma_decimal_grows(text, count + 1);
        let longer = text.subrange(0, count + 1);
        assert(longer.drop_last() =~= text.subrange(0, count));
        assert(decimal(longer) >= decimal(longer.drop_last())) by (nonlinear_arith)
            requires
                decimal(longer) == decimal(longer.drop_last()) * 10 + (longer.last() - 0x30) as nat,
        ;
    } else {
        assert(text.subrange(0, count) =~= text);
    }
}

/// Reads an amount of capacity as the operator writes it, `12` or `0.0001`,
/// and gives it in the smallest units. `None` where the text spells no
/// amount, or one that is too large to be stated.
pub fn parse_capacity(text: &[u8]) -> (result: Option<u64>)
    ensures
        match result {
            Some(amount) => spells_amount(text@) && amount == amount_spelled(text@),
            None => !spells_amount(text@) || amount_spelled(text@) > u64::MAX,
        },
{
    let point: usize = find_point(text);
    if point == 0 {
        return None;
    }
    let whole_limit: u64 = u64::MAX / SHANNONS_PER_CKB;
    let ghost whole_digits = whole_part(text@);
    let ghost fraction_digits = fraction_part(text@);
    let whole: u64 = match read_digits(text, 0, point, whole_limit) {
        Some(whole) => whole,
        None => {
            proof {
                if all_digits(whole_digits) {
                    assert(decimal(whole_digits) >= whole_limit + 1);
                    assert(decimal(whole_digits) * SHANNONS_PER_CKB as nat > u64::MAX)
                        by (nonlinear_arith)
                        requires
                            decimal(whole_digits) >= 184467440738,
                    ;
                }
            }
            return None;
        },
    };
    let start: usize = if point < text.len() {
        point + 1
    } else {
        point
    };
    assert(text@.subrange(start as int, text@.len() as int) =~= fraction_digits);
    let count: usize = text.len() - start;
    if count > DECIMALS {
        return None;
    }
    let fraction: u64 = match read_digits(text, start, text.len(), SHANNONS_PER_CKB) {
        Some(fraction) => fraction,
        None => {
            proof {
                if all_digits(fraction_digits) {
                    lemma_decimal_bound(fraction_digits);
                    lemma_pow10_values();
                    lemma_pow10_monotone(fraction_digits.len(), 8);
                }
            }
            return None;
        },
    };
    let mut scaled: u64 = fraction;
    let mut i: usize = count;
    proof {
        lemma_decimal_bound(fraction_digits);
        lemma_pow10_values();
        assert(fraction * pow10(0) == fraction) by (nonlinear_arith)
            requires
                pow10(0) == 1,
        ;
    }
    while i < DECIMALS
        invariant
            count <= i <= DECIMALS,
            fraction < pow10(count as nat),
            scaled == fraction * pow10((i - count) as nat),
            scaled < pow10(i as nat),
        decreases DECIMALS - i,
    {
        proof {
            lemma_pow10_monotone((i + 1) as nat, 8);
            lemma_pow10_values();
            assert(fraction * pow10((i + 1 - count) as nat) == 10 * (fraction * pow10(
                (i - count) as nat,
            ))) by (nonlinear_arith)
                requires
                    pow10((i + 1 - count) as nat) == 10 * pow10((i - count) as nat),
            ;
        }
        scaled = scaled * 10;
        i = i + 1;
    }
    let total: u128 = whole as u128 * SHANNONS_PER_CKB as u128 + scaled as u128;
    if total > u64::MAX as u128 {
        None
    } else {
        Some(total as u64)
    }
}

/// A larger exponent gives no smaller power of ten.
pub proof fn lemma_pow10_monotone(low: nat, high: nat)
    requires
        low <= high,
    ensures
        pow10(low) <= pow10(high),
        pow10(low) >= 1,
    decreases high,
{
    if low < high {
        lemma_pow10_monotone(low, (high - 1) as nat);
    } else if low > 0 {
        lemma_pow10_monotone((low - 1) as nat, (high - 1) as nat);
    }
}

} // verus!
