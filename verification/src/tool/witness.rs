//! The witness of an input: three optional byte strings in the ledger's
//! table encoding.

use crate::bytes::{
    le_bytes,
    le_value,
    lemma_le_bytes_len,
    lemma_le_bytes_of_le_value,
    lemma_le_value_of_le_bytes,
    lemma_pow256_values,
};
use ckb_types::bytes::Bytes;
use ckb_types::packed;
use ckb_types::prelude::{Builder, Entity, Pack};
use vstd::prelude::*;

verus! {

/// Number of bytes in the header of an encoded witness: its total size and
/// the offsets of its three fields, four bytes each.
pub const WITNESS_HEADER_SIZE: usize = 16;

/// Largest size that the four-byte numbers of the encoding can state.
pub const MAX_ENCODED_SIZE: usize = 0xffff_ffff;

/// The arguments that a witness carries for the scripts of its input.
#[derive(Clone, Debug, PartialEq, Eq)]
pub struct WitnessArgs {
    /// What unlocks the input: the signatures.
    pub lock: Option<Vec<u8>>,
    /// Arguments for the type script of the input.
    pub input_type: Option<Vec<u8>>,
    /// Arguments for the type script of the output.
    pub output_type: Option<Vec<u8>>,
}

/// What a [`WitnessArgs`] holds.
pub struct WitnessArgsView {
    pub lock: Option<Seq<u8>>,
    pub input_type: Option<Seq<u8>>,
    pub output_type: Option<Seq<u8>>,
}

/// The bytes that an optional byte vector holds.
pub open spec fn optional_bytes(field: Option<Vec<u8>>) -> Option<Seq<u8>> {
    match field {
        Some(data) => Some(data@),
        None => None,
    }
}

impl View for WitnessArgs {
    type V = WitnessArgsView;

    open spec fn view(&self) -> WitnessArgsView {
        WitnessArgsView {
            lock: optional_bytes(self.lock),
            input_type: optional_bytes(self.input_type),
            output_type: optional_bytes(self.output_type),
        }
    }
}

/// The encoding of an optional byte string: nothing where it is absent, else
/// its length in four bytes and then its bytes.
pub open spec fn field_encoding(field: Option<Seq<u8>>) -> Seq<u8> {
    match field {
        Some(data) => le_bytes(data.len(), 4) + data,
        None => Seq::empty(),
    }
}

/// `bytes` is the encoding of an optional byte string.
pub open spec fn field_framed(bytes: Seq<u8>) -> bool {
    bytes.len() == 0 || (bytes.len() >= 4 && bytes.len() == 4 + le_value(bytes.subrange(0, 4)))
}

/// The optional byte string that `bytes` encodes.
pub open spec fn field_value(bytes: Seq<u8>) -> Option<Seq<u8>> {
    if bytes.len() == 0 {
        None
    } else {
        Some(bytes.subrange(4, bytes.len() as int))
    }
}

impl WitnessArgsView {
    /// The witness without any argument.
    pub open spec fn empty() -> WitnessArgsView {
        WitnessArgsView { lock: None, input_type: None, output_type: None }
    }

    /// The same arguments, with `lock` as what unlocks the input.
    pub open spec fn with_lock(self, lock: Seq<u8>) -> WitnessArgsView {
        WitnessArgsView { lock: Some(lock), input_type: self.input_type, output_type: self.output_type }
    }

    /// Number of bytes in the encoding.
    pub open spec fn encoded_len(self) -> nat {
        WITNESS_HEADER_SIZE as nat + field_encoding(self.lock).len() + field_encoding(
            self.input_type,
        ).len() + field_encoding(self.output_type).len()
    }

    /// The four-byte numbers of the encoding can state its size.
    pub open spec fn fits(self) -> bool {
        self.encoded_len() <= MAX_ENCODED_SIZE
    }

    /// The encoding: the total size, the offsets at which the three fields
    /// start, then the fields.
    pub open spec fn encoding(self) -> Seq<u8> {
        let lock = field_encoding(self.lock);
        let input_type = field_encoding(self.input_type);
        let output_type = field_encoding(self.output_type);
        le_bytes(self.encoded_len(), 4) + le_bytes(WITNESS_HEADER_SIZE as nat, 4) + le_bytes(
            WITNESS_HEADER_SIZE as nat + lock.len(),
            4,
        ) + le_bytes(WITNESS_HEADER_SIZE as nat + lock.len() + input_type.len(), 4) + lock
            + input_type + output_type
    }
}

/// `bytes` is the encoding of a witness with its three fields: the size it
/// states is its length, the first field starts right after the header, the
/// offsets are in order, and each field is well framed.
pub open spec fn witness_framed(bytes: Seq<u8>) -> bool {
    let second = le_value(bytes.subrange(8, 12)) as int;
    let third = le_value(bytes.subrange(12, 16)) as int;
    &&& bytes.len() >= WITNESS_HEADER_SIZE
    &&& le_value(bytes.subrange(0, 4)) == bytes.len()
    &&& le_value(bytes.subrange(4, 8)) == WITNESS_HEADER_SIZE
    &&& WITNESS_HEADER_SIZE <= second <= third <= bytes.len()
    &&& field_framed(bytes.subrange(WITNESS_HEADER_SIZE as int, second))
    &&& field_framed(bytes.subrange(second, third))
    &&& field_framed(bytes.subrange(third, bytes.len() as int))
}

/// The arguments that a well-framed witness encodes.
pub open spec fn witness_fields(bytes: Seq<u8>) -> WitnessArgsView {
    let second = le_value(bytes.subrange(8, 12)) as int;
    let third = le_value(bytes.subrange(12, 16)) as int;
    WitnessArgsView {
        lock: field_value(bytes.subrange(WITNESS_HEADER_SIZE as int, second)),
        input_type: field_value(bytes.subrange(second, third)),
        output_type: field_value(bytes.subrange(third, bytes.len() as int)),
    }
}

/// The encoding has the stated number of bytes.
pub proof fn lemma_encoding_len(args: WitnessArgsView)
    ensures
        args.encoding().len() == args.encoded_len(),
{
    let header = WITNESS_HEADER_SIZE as nat;
    let lock = field_encoding(args.lock);
    let input_type = field_encoding(args.input_type);
    lemma_le_bytes_len(args.encoded_len(), 4);
    lemma_le_bytes_len(header, 4);
    lemma_le_bytes_len(header + lock.len(), 4);
    lemma_le_bytes_len(header + lock.len() + input_type.len(), 4);
}

/// An optional byte string is read back from its encoding.
pub proof fn lemma_field_round_trip(field: Option<Seq<u8>>)
    requires
        field_encoding(field).len() <= MAX_ENCODED_SIZE,
    ensures
        field_framed(field_encoding(field)),
        field_value(field_encoding(field)) == field,
{
    match field {
        Some(data) => {
            let encoded = field_encoding(field);
            lemma_le_bytes_len(data.len(), 4);
            lemma_pow256_values();
            lemma_le_value_of_le_bytes(data.len(), 4);
            assert(encoded.subrange(0, 4) =~= le_bytes(data.len(), 4));
            assert(encoded.subrange(4, encoded.len() as int) =~= data);
        },
        None => {},
    }
}

/// Arguments whose encoding the four-byte numbers can state are read back
/// from their encoding.
pub proof fn lemma_witness_round_trip(args: WitnessArgsView)
    requires
        args.fits(),
    ensures
        witness_framed(args.encoding()),
        witness_fields(args.encoding()) == args,
{
    let lock = field_encoding(args.lock);
    let input_type = field_encoding(args.input_type);
    let output_type = field_encoding(args.output_type);
    let header = WITNESS_HEADER_SIZE as nat;
    let bytes = args.encoding();
    lemma_pow256_values();
    lemma_le_bytes_len(args.encoded_len(), 4);
    lemma_le_bytes_len(header, 4);
    lemma_le_bytes_len(header + lock.len(), 4);
    lemma_le_bytes_len(header + lock.len() + input_type.len(), 4);
    lemma_le_value_of_le_bytes(args.encoded_len(), 4);
    lemma_le_value_of_le_bytes(header, 4);
    lemma_le_value_of_le_bytes(header + lock.len(), 4);
    lemma_le_value_of_le_bytes(header + lock.len() + input_type.len(), 4);
    assert(bytes.len() == args.encoded_len());
    assert(bytes.subrange(0, 4) =~= le_bytes(args.encoded_len(), 4));
    assert(bytes.subrange(4, 8) =~= le_bytes(header, 4));
    assert(bytes.subrange(8, 12) =~= le_bytes(header + lock.len(), 4));
    assert(bytes.subrange(12, 16) =~= le_bytes(header + lock.len() + input_type.len(), 4));
    let second = (header + lock.len()) as int;
    let third = (header + lock.len() + input_type.len()) as int;
    assert(bytes.subrange(header as int, second) =~= lock);
    assert(bytes.subrange(second, third) =~= input_type);
    assert(bytes.subrange(third, bytes.len() as int) =~= output_type);
    lemma_field_round_trip(args.lock);
    lemma_field_round_trip(args.input_type);
    lemma_field_round_trip(args.output_type);
}

/// Well-framed bytes of a field are the encoding of the value read from them.
pub proof fn lemma_field_canonical(bytes: Seq<u8>)
    requires
        field_framed(bytes),
    ensures
        field_encoding(field_value(bytes)) == bytes,
{
    if bytes.len() > 0 {
        let head = bytes.subrange(0, 4);
        let data = bytes.subrange(4, bytes.len() as int);
        lemma_le_bytes_of_le_value(head);
        assert(le_bytes(data.len(), 4) == head);
        assert(head + data =~= bytes);
    }
}

/// A well-framed witness is the encoding of the arguments read from it, and
/// of no others: reading a witness and writing it back leaves it as it was.
pub proof fn lemma_witness_canonical(bytes: Seq<u8>)
    requires
        witness_framed(bytes),
    ensures
        witness_fields(bytes).fits(),
        witness_fields(bytes).encoding() == bytes,
{
    let args = witness_fields(bytes);
    let header = WITNESS_HEADER_SIZE as int;
    let second = le_value(bytes.subrange(8, 12)) as int;
    let third = le_value(bytes.subrange(12, 16)) as int;
    let lock = bytes.subrange(header, second);
    let input_type = bytes.subrange(second, third);
    let output_type = bytes.subrange(third, bytes.len() as int);
    lemma_field_canonical(lock);
    lemma_field_canonical(input_type);
    lemma_field_canonical(output_type);
    lemma_pow256_values();
    lemma_le_bytes_of_le_value(bytes.subrange(0, 4));
    lemma_le_bytes_of_le_value(bytes.subrange(4, 8));
    lemma_le_bytes_of_le_value(bytes.subrange(8, 12));
    lemma_le_bytes_of_le_value(bytes.subrange(12, 16));
    assert(args.encoded_len() == bytes.len());
    assert(args.encoding() =~= bytes.subrange(0, 4) + bytes.subrange(4, 8) + bytes.subrange(8, 12)
        + bytes.subrange(12, 16) + lock + input_type + output_type);
    assert(bytes.subrange(0, 4) + bytes.subrange(4, 8) + bytes.subrange(8, 12) + bytes.subrange(
        12,
        16,
    ) + lock + input_type + output_type =~= bytes);
}

/// Calls `WitnessArgs::from_slice` of `ckb_types::packed` and, where it
/// accepts the bytes, reads the three fields with `lock`, `input_type` and
/// `output_type`. The contract states the checks that `from_slice` makes (the
/// stated size, the offset of the first field, the order of the offsets, the
/// framing of each field) and that the fields are the bytes between the
/// offsets, without their four-byte length.
#[verifier::external_body]
pub(crate) fn parse_witness_args(bytes: &[u8]) -> (result: Option<WitnessArgs>)
    ensures
        match result {
            Some(args) => witness_framed(bytes@) && args@ == witness_fields(bytes@),
            None => !witness_framed(bytes@),
        },
{
    match packed::WitnessArgs::from_slice(bytes) {
        Ok(args) => Some(
            WitnessArgs {
                lock: args.lock().to_opt().map(|data| data.raw_data().to_vec()),
                input_type: args.input_type().to_opt().map(|data| data.raw_data().to_vec()),
                output_type: args.output_type().to_opt().map(|data| data.raw_data().to_vec()),
            },
        ),
        Err(_) => None,
    }
}

/// Calls the builder of `WitnessArgs` in `ckb_types::packed` with the three
/// fields and takes the bytes of what it builds. The contract states the
/// layout that the builder writes; it is asked only for arguments whose
/// encoding the four-byte numbers can state.
#[verifier::external_body]
pub(crate) fn serialize_witness_args(args: &WitnessArgs) -> (bytes: Vec<u8>)
    requires
        args@.fits(),
    ensures
        bytes@ == args@.encoding(),
{
    packed::WitnessArgs::new_builder()
        .lock(args.lock.clone().map(Bytes::from).pack())
        .input_type(args.input_type.clone().map(Bytes::from).pack())
        .output_type(args.output_type.clone().map(Bytes::from).pack())
        .build()
        .as_bytes()
        .to_vec()
}

/// Number of bytes in the encoding of `field`, or some number above
/// `MAX_ENCODED_SIZE` where it has more than that.
fn field_encoded_len(field: &Option<Vec<u8>>) -> (len: u64)
    ensures
        len <= MAX_ENCODED_SIZE + 1,
        field_encoding(optional_bytes(*field)).len() <= MAX_ENCODED_SIZE ==> len == field_encoding(
            optional_bytes(*field),
        ).len(),
        field_encoding(optional_bytes(*field)).len() > MAX_ENCODED_SIZE ==> len
            == MAX_ENCODED_SIZE + 1,
{
    match field {
        Some(data) => {
            proof {
                lemma_le_bytes_len(data@.len(), 4);
            }
            if data.len() > MAX_ENCODED_SIZE - 4 {
                MAX_ENCODED_SIZE as u64 + 1
            } else {
                data.len() as u64 + 4
            }
        },
        None => 0,
    }
}

impl WitnessArgs {
    /// The witness without any argument.
    pub fn empty() -> (args: WitnessArgs)
        ensures
            args@ == WitnessArgsView::empty(),
    {
        WitnessArgs { lock: None, input_type: None, output_type: None }
    }

    /// Whether the four-byte numbers of the encoding can state its size.
    pub fn fits(&self) -> (result: bool)
        ensures
            result == self@.fits(),
    {
        let lock: u64 = field_encoded_len(&self.lock);
        let input_type: u64 = field_encoded_len(&self.input_type);
        let output_type: u64 = field_encoded_len(&self.output_type);
        WITNESS_HEADER_SIZE as u64 + lock + input_type + output_type <= MAX_ENCODED_SIZE as u64
    }

    /// Reads the arguments from the bytes of a witness; `None` where the
    /// bytes are not the encoding of any.
    pub fn from_slice(bytes: &[u8]) -> (result: Option<WitnessArgs>)
        ensures
            match result {
                Some(args) => witness_framed(bytes@) && args@ == witness_fields(bytes@),
                None => !witness_framed(bytes@),
            },
    {
        parse_witness_args(bytes)
    }

    /// The bytes of the witness that carries these arguments; `None` where
    /// the encoding cannot state their size.
    pub fn to_bytes(&self) -> (result: Option<Vec<u8>>)
        ensures
            match result {
                Some(bytes) => self@.fits() && bytes@ == self@.encoding(),
                None => !self@.fits(),
            },
    {
        if self.fits() {
            Some(serialize_witness_args(self))
        } else {
            None
        }
    }
}

} // verus!
