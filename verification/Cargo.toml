[package]
name = "rsnano"
version = "0.1.0"
edition = "2021"
publish = false

[dependencies]
blake2 = "=0.10.6"
ed25519-dalek = { version = "=2.2.0", features = ["hazmat", "digest"] }
primitive-types = "=0.12.2"
serde = { version = "=1.0.229", features = ["derive"] }
serde_json = "1"
