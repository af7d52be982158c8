//! The ledger's default hash.

use vstd::prelude::*;

verus! {

/// Number of bytes in a digest of the ledger's default hash.
pub const DIGEST_SIZE: usize = 32;

/// The ledger's default hash of `data`: BLAKE2b with a 32-byte output and the
/// personalisation `ckb-default-hash`. It stands for what the hashing crate
/// computes; nothing is assumed of it but that equal data give equal digests.
pub uninterp spec fn blake2b_256_digest(data: Seq<u8>) -> Seq<u8>;

/// Calls `ckb_hash::blake2b_256`, which feeds `data` to a hasher made by
/// `ckb_hash::new_blake2b` and finalizes it into 32 bytes. The contract only
/// names that digest.
#[verifier::external_body]
pub(crate) fn blake2b_256(data: &[u8]) -> (digest: [u8; 32])
    ensures
        digest@ == blake2b_256_digest(data@),
{
    ckb_hash::blake2b_256(data)
}

} // verus!
