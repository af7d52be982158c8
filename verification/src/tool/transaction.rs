//! Transactions in the ledger's encoding: what signing reads of them and
//! how signed witnesses are put back.

use crate::bytes::byte_strings;
use crate::tool::multisig::{DraftTransaction, DraftTransactionView};
use ckb_types::packed;
use ckb_types::prelude::{Entity, Pack, Unpack};
use vstd::prelude::*;

verus! {

/// What signing needs of the transaction that `bytes` encode: its hash, the
/// number of its inputs and its witnesses. `None` where `bytes` encode no
/// transaction. It stands for what the ledger's own types compute.
pub uninterp spec fn encoded_draft(bytes: Seq<u8>) -> Option<DraftTransactionView>;

/// The encoding of the transaction that `bytes` encode, with `witnesses` in
/// place of its own. `None` where `bytes` encode no transaction. It stands
/// for what the ledger's own types compute.
pub uninterp spec fn encoded_with_witnesses(bytes: Seq<u8>, witnesses: Seq<Seq<u8>>) -> Option<
    Seq<u8>,
>;

/// Calls `Transaction::from_slice` of `ckb_types::packed` and, where it
/// accepts the bytes, `into_view`, then reads `hash`, the length of `inputs`
/// and the raw data of each of `witnesses`. The contract only names the
/// result.
#[verifier::external_body]
pub(crate) fn read_draft(bytes: &[u8]) -> (result: Option<DraftTransaction>)
    ensures
        match result {
            Some(draft) => encoded_draft(bytes@) == Some(draft@),
            None => encoded_draft(bytes@) is None,
        },
{
    match packed::Transaction::from_slice(bytes) {
        Ok(transaction) => {
            let view = transaction.into_view();
            Some(
                DraftTransaction {
                    hash: view.hash().unpack(),
                    input_count: view.inputs().len(),
                    witnesses: view.witnesses().into_iter().map(|w| w.raw_data().to_vec()).collect(),
                },
            )
        },
        Err(_) => None,
    }
}

/// Calls `Transaction::from_slice` of `ckb_types::packed` and, where it
/// accepts the bytes, `as_advanced_builder`, `set_witnesses` with the given
/// witnesses, `build` and `data`, and takes the bytes. The contract only
/// names the result.
#[verifier::external_body]
pub(crate) fn write_witnesses(bytes: &[u8], witnesses: &Vec<Vec<u8>>) -> (result: Option<Vec<u8>>)
    ensures
        match result {
            Some(encoded) => encoded_with_witnesses(bytes@, byte_strings(witnesses@)) == Some(
                encoded@,
            ),
            None => encoded_with_witnesses(bytes@, byte_strings(witnesses@)) is None,
        },
{
    match packed::Transaction::from_slice(bytes) {
        Ok(transaction) => Some(
            transaction.as_advanced_builder().set_witnesses(
                witnesses.iter().map(|w| w.pack()).collect(),
            ).build().data().as_bytes().to_vec(),
        ),
        Err(_) => None,
    }
}

} // verus!
