[package]
name = "aurora_chain"
version = "0.1.0"
edition = "2021"
publish = false

[dependencies]
sha2 = "=0.10.9"
ed25519-dalek = { version = "=1.0.1", features = ["serde"] }
rand = "=0.7.3"
serde = { version = "=1.0.229", features = ["derive"] }
serde_json = "=1.0.154"
bincode = "=1.3.3"
chrono = "=0.4.45"
rocksdb = { version = "*", default-features = false }
