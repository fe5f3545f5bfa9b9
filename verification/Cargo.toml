[package]
name = "stylus_verify"
version = "0.1.0"
edition = "2021"
publish = false

[dependencies]
brotli = "*"
tiny-keccak = { version = "*", features = ["keccak"] }
hex = "*"
serde = { version = "*", features = ["derive"] }
serde_json = "*"
eyre = "*"
