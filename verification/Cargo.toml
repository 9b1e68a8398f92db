[package]
name = "stellarconduit-sync-engine"
version = "0.1.0"
edition = "2021"
publish = false

[dependencies]
bulletproofs = "=5.0.0"
curve25519-dalek = { version = "=4.1.3", features = ["rand_core"] }
merlin = "=3.0.0"
rand = "0.8"

[dev-dependencies]
loom = "0.7"
