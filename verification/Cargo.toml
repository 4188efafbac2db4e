[package]
name = "adamas"
version = "0.1.0"
edition = "2021"
publish = false

[dependencies]
sha2 = "*"
hex = "*"
pqcrypto-dilithium = "*"
pqcrypto-traits = "*"
serde = { version = "*", features = ["derive"] }
serde_json = "*"
bincode = "1"
sled = "*"
