//! Tools for signing: the message, the witness, and the transaction in the
//! ledger's encoding.

pub mod multisig;
pub mod transaction;
pub mod witness;
