//! Deploying cells: what the operator asks for, what was deployed before,
//! what to deploy next, and the run that deploys it.

pub mod manage;
pub mod migration;
pub mod options;
pub mod plan;
pub mod store;
pub mod type_id;
