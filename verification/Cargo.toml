[package]
name = "wallet_p2p"
version = "0.1.0"
edition = "2021"
publish = false

[dependencies]
anyhow = "*"
bs58 = "*"
config = "*"
ed25519-dalek = { version = "2", features = ["rand_core"] }
env_logger = "*"
hex = "*"
log = "*"
rand = "0.8"
serde = { version = "*", features = ["derive"] }
serde_json = "*"
tokio = { version = "*", features = ["rt-multi-thread", "macros", "sync", "time", "net", "io-util"] }
