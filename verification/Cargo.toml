[package]
name = "gossip_ledger"
version = "0.1.0"
edition = "2021"
publish = false

[dependencies]
ed25519-dalek = { version = "2", features = ["rand_core"] }
base64ct = { version = "1", features = ["alloc"] }
rand = "0.8"
tokio = { version = "1", features = ["full"] }
anyhow = "1"
log = "0.4"
env_logger = "0.10"
