//! The file that the cosigners of a transaction pass around.

use crate::bytes::byte_strings;
use crate::config::lock::{MultisigLock, MultisigLockView};
use crate::tool::multisig::{
    calculate_multisig_tx_message,
    first_missized_at,
    first_missized_signature,
    message_owed,
    message_refused,
    put_signatures_on_multisig_tx,
    signed_transaction,
    signing_message,
    signing_owed,
    signing_refused,
    signatures_sized,
    MultisigError,
    SIGNATURE_SIZE,
};
use crate::tool::transaction::{encoded_draft, encoded_with_witnesses, read_draft, write_witnesses};
use vstd::prelude::*;

verus! {

/// A transaction to be signed, the policy that locks its first input, and
/// the signatures collected so far.
#[derive(Clone, Debug, PartialEq, Eq)]
pub struct MultisigConfig {
    /// The transaction, in the ledger's encoding.
    pub transaction: Vec<u8>,
    pub lock: MultisigLock,
    /// The signatures, 65 bytes each once they are filled in.
    pub signatures: Vec<Vec<u8>>,
}

/// What a [`MultisigConfig`] holds.
pub struct MultisigConfigView {
    pub transaction: Seq<u8>,
    pub lock: MultisigLockView,
    pub signatures: Seq<Seq<u8>>,
}

impl View for MultisigConfig {
    type V = MultisigConfigView;

    open spec fn view(&self) -> MultisigConfigView {
        MultisigConfigView {
            transaction: self.transaction@,
            lock: self.lock@,
            signatures: byte_strings(self.signatures@),
        }
    }
}

impl MultisigConfigView {
    /// `error` is the reason for which the message cannot be computed: the
    /// bytes encode no transaction, or the message of the transaction is refused.
    pub open spec fn message_refused(self, error: MultisigError) -> bool {
        match encoded_draft(self.transaction) {
            Some(draft) => message_refused(draft, self.lock, error),
            None => error is MalformedTransaction,
        }
    }

    /// `error` is the reason for which there is no signed transaction. The
    /// lengths of the signatures are looked at first, then the transaction.
    pub open spec fn signing_refused(self, error: MultisigError) -> bool {
        match error {
            MultisigError::SignatureLengthMismatch { index, length } => first_missized_at(
                self.signatures,
                index,
                length,
            ),
            _ => {
                &&& signatures_sized(self.signatures)
                &&& match encoded_draft(self.transaction) {
                    Some(draft) => {
                        ||| signing_refused(draft, self.lock, self.signatures, error)
                        ||| {
                            &&& error is MalformedTransaction
                            &&& signing_owed(draft, self.lock, self.signatures)
                            &&& encoded_with_witnesses(
                                self.transaction,
                                signed_transaction(draft, self.lock, self.signatures).witnesses,
                            ) is None
                        }
                    },
                    None => error is MalformedTransaction,
                }
            },
        }
    }
}

impl MultisigConfig {
    /// Whether as many signatures are collected as the policy requires.
    pub fn is_complete(&self) -> (complete: bool)
        ensures
            complete == (self@.signatures.len() == self@.lock.require_n_keys),
    {
        self.signatures.len() == self.lock.require_n_keys as usize
    }

    /// Adds the signature of one more cosigner. A signature that has not 65
    /// bytes is refused, and so is any once as many are collected as the
    /// policy requires; the collected signatures then stay as they are.
    pub fn add_signature(&mut self, signature: Vec<u8>) -> (result: Result<(), MultisigError>)
        ensures
            final(self)@.transaction == old(self)@.transaction,
            final(self)@.lock == old(self)@.lock,
            match result {
                Ok(()) => {
                    &&& signature@.len() == SIGNATURE_SIZE
                    &&& old(self)@.signatures.len() < old(self)@.lock.require_n_keys
                    &&& final(self)@.signatures == old(self)@.signatures.push(signature@)
                },
                Err(MultisigError::SignatureLengthMismatch { index, length }) => {
                    &&& signature@.len() != SIGNATURE_SIZE
                    &&& index == old(self)@.signatures.len()
                    &&& length == signature@.len()
                    &&& final(self)@.signatures == old(self)@.signatures
                },
                Err(MultisigError::SignatureCountMismatch { expected, actual }) => {
                    &&& signature@.len() == SIGNATURE_SIZE
                    &&& old(self)@.signatures.len() >= old(self)@.lock.require_n_keys
                    &&& expected == old(self)@.lock.require_n_keys
                    &&& actual == old(self)@.signatures.len()
                    &&& final(self)@.signatures == old(self)@.signatures
                },
                Err(_) => false,
            },
    {
        let count: usize = self.signatures.len();
        if signature.len() != SIGNATURE_SIZE {
            return Err(
                MultisigError::SignatureLengthMismatch { index: count, length: signature.len() },
            );
        }
        let expected: usize = self.lock.require_n_keys as usize;
        if count >= expected {
            return Err(MultisigError::SignatureCountMismatch { expected, actual: count });
        }
        self.signatures.push(signature);
        assert(self@.signatures =~= old(self)@.signatures.push(signature@));
        Ok(())
    }

    /// The message that the cosigners sign for the transaction.
    pub fn message(&self) -> (result: Result<[u8; 32], MultisigError>)
        ensures
            match result {
                Ok(message) => match encoded_draft(self@.transaction) {
                    Some(draft) => {
                        &&& message_owed(draft, self@.lock)
                        &&& message@ == signing_message(draft, self@.lock)
                    },
                    None => false,
                },
                Err(error) => self@.message_refused(error),
            },
    {
        match read_draft(self.transaction.as_slice()) {
            Some(draft) => calculate_multisig_tx_message(&draft, &self.lock),
            None => Err(MultisigError::MalformedTransaction),
        }
    }

    /// The transaction, in the ledger's encoding, with the signatures
    /// installed in its first witness.
    pub fn signed_transaction(&self) -> (result: Result<Vec<u8>, MultisigError>)
        ensures
            match result {
                Ok(encoded) => match encoded_draft(self@.transaction) {
                    Some(draft) => {
                        &&& signing_owed(draft, self@.lock, self@.signatures)
                        &&& encoded_with_witnesses(
                            self@.transaction,
                            signed_transaction(draft, self@.lock, self@.signatures).witnesses,
                        ) == Some(encoded@)
                    },
                    None => false,
                },
                Err(error) => self@.signing_refused(error),
            },
    {
        if let Some((index, length)) = first_missized_signature(self.signatures.as_slice()) {
            return Err(MultisigError::SignatureLengthMismatch { index, length });
        }
        let draft = match read_draft(self.transaction.as_slice()) {
            Some(draft) => draft,
            None => {
                return Err(MultisigError::MalformedTransaction);
            },
        };
        let signed = put_signatures_on_multisig_tx(&draft, &self.lock, self.signatures.as_slice())?;
        match write_witnesses(self.transaction.as_slice(), &signed.witnesses) {
            Some(encoded) => Ok(encoded),
            None => Err(MultisigError::MalformedTransaction),
        }
    }
}

} // verus!
