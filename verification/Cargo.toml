[package]
name = "merkle_proof"
version = "0.1.0"
edition = "2021"
publish = false

[dependencies]
sha2 = "0.10"
starknet-crypto = "*"
rayon = "1"
openvm = "*"

[dev-dependencies]
hex = "0.4"
