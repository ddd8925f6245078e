[package]
name = "rustchain"
version = "0.1.0"
edition = "2021"
publish = false

[dependencies]
sha2 = "=0.10.9"
hex = "=0.4.3"
ed25519-dalek = { version = "=2.2.0", features = ["rand_core"] }
rand = "=0.8.8"
chrono = { version = "=0.4.45", default-features = false, features = ["clock"] }
serde = { version = "=1.0.229", features = ["derive"] }
serde_json = "=1.0.154"
bincode = "=1.3.3"
reqwest = { version = "=0.12.28", default-features = false, features = ["blocking", "json"] }
tracing = "=0.1.44"
tracing-subscriber = "=0.3.23"
rusty-leveldb = "=4.0.2"
axum = "0.7"
tokio = { version = "1", features = ["rt-multi-thread", "macros", "net"] }
