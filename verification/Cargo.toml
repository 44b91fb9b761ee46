[package]
name = "black_bloc"
version = "0.1.0"
edition = "2021"
publish = false

[dependencies]
bincode = "1.3"
bitcoin_hashes = "0.10"
chrono = { version = "0.4", features = ["serde"] }
k256 = { version = "0.10", features = ["ecdsa", "jwk"] }
log = "0.4"
rand_core = { version = "0.6", features = ["getrandom"] }
serde = { version = "1", features = ["derive"] }
