[package]
name = "scematica"
version = "0.1.0"
edition = "2021"
publish = false

[dependencies]
tiny-keccak = { version = "=2.0.2", features = ["keccak"] }
rand = "=0.8.8"
serde = { version = "=1.0.229", features = ["derive"] }
serde_json = "=1.0.154"
