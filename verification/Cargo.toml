[package]
name = "mahala"
version = "0.1.0"
edition = "2021"
publish = false

[dependencies]
blake3 = "*"
ed25519-dalek = { version = "2", features = ["rand_core"] }
hex = "*"
chrono = "*"
rand = "0.8"
serde = { version = "1", features = ["derive"] }
serde_json = "1"
thiserror = "*"
tokio = { version = "1", features = ["rt-multi-thread", "time", "sync", "macros"] }
actix-web = "4"
actix-cors = "*"
env_logger = "*"
