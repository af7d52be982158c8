//! Deployment and multisig engine for a cell-based ledger: the lock-script
//! codec of a multisig policy, the message its cosigners sign, the witness that
//! carries their signatures, the planning of cell deployments, the record of
//! what was deployed, and the run that deploys.

pub mod bytes;
pub mod config;
pub mod contracts;
pub mod deployment;
pub mod hash;
pub mod tool;
