//! What the project's configuration files hold.

pub mod config;
pub mod lock;
pub mod multisig;

pub use self::config::{
    Cell, CellLocation, Config, ConfigError, Contract, DepGroup, Deployment, RustConfig, TemplateType,
};
pub use self::lock::{Lock, LockAuthority, LockError, MultisigLock, Script, ScriptHashType};
pub use self::multisig::MultisigConfig;
