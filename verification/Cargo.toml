[package]
name = "encrypted_conn"
version = "0.1.0"
edition = "2021"
publish = false

[dependencies]
async-trait = "0.1"
ed25519-dalek = { version = "2", features = ["rand_core"] }
tokio = { version = "1", features = ["macros", "rt", "sync", "time"] }
tokio-util = "0.7"

[dev-dependencies]
rand = "0.8"
