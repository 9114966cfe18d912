[package]
name = "kanari"
version = "0.1.0"
edition = "2021"
publish = false

[dependencies]
sha2 = "*"
sha3 = "*"
ed25519-dalek = "*"
k256 = { version = "*", features = ["schnorr"] }
p256 = "*"
secp256k1 = { version = "*", features = ["recovery"] }
serde = { version = "*", features = ["derive"] }
serde_json = "*"

[dev-dependencies]
bcs = "*"
