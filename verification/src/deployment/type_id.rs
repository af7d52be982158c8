//! The type script that lets a cell keep its identity when it is replaced.

use crate::bytes::{append_bytes, le_bytes, le_bytes_of, zeros};
use crate::hash::{blake2b_256, blake2b_256_digest};
use vstd::prelude::*;

verus! {

/// The text that ends the code hash of the type-id script: `TYPE_ID`.
pub open spec fn type_id_tag() -> Seq<u8> {
    seq![0x54u8, 0x59, 0x50, 0x45, 0x5f, 0x49, 0x44]
}

/// The code hash by which the ledger knows the type-id script: zero bytes,
/// then the text `TYPE_ID`.
pub fn type_id_code_hash() -> (code_hash: [u8; 32])
    ensures
        code_hash@ == zeros(25) + type_id_tag(),
{
    let code_hash: [u8; 32] = [
        0, 0, 0, 0, 0, 0, 0, 0, 0, 0, 0, 0, 0, 0, 0, 0, 0, 0, 0, 0, 0, 0, 0, 0, 0,
        0x54, 0x59, 0x50, 0x45, 0x5f, 0x49, 0x44,
    ];
    assert(code_hash@ =~= zeros(25) + type_id_tag());
    code_hash
}

/// The arguments of the type-id script of a new cell: the ledger's hash of
/// the first input of the transaction that creates it, in the ledger's
/// encoding, and of the index of the output, in eight bytes.
pub open spec fn type_id(first_input: Seq<u8>, output_index: u64) -> Seq<u8> {
    blake2b_256_digest(first_input + le_bytes(output_index as nat, 8))
}

/// Derives the arguments of the type-id script for the output at
/// `output_index` of a transaction whose first input is `first_input`.
pub fn type_id_args(first_input: &[u8], output_index: u64) -> (args: [u8; 32])
    ensures
        args@ == type_id(first_input@, output_index),
{
    let mut preimage: Vec<u8> = Vec::new();
    append_bytes(&mut preimage, first_input);
    let index = le_bytes_of(output_index, 8);
    append_bytes(&mut preimage, index.as_slice());
    assert(preimage@ =~= first_input@ + le_bytes(output_index as nat, 8));
    blake2b_256(preimage.as_slice())
}

} // verus!
