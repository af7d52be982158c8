[package]
name = "ckb-capsule"
version = "0.1.0"
edition = "2021"
publish = false

[dependencies]
anyhow = "=1.0.104"
ckb-hash = "=0.37.0"
ckb-jsonrpc-types = "=0.37.0"
ckb-types = "=0.37.0"
clap = { version = "=2.34.0", default-features = false }
env_logger = { version = "=0.7.1", default-features = false }
serde = { version = "=1.0.229", features = ["derive"] }
serde_json = "=1.0.154"
toml = "=0.5.11"
