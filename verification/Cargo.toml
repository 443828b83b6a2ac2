[package]
name = "sn_membership"
version = "0.1.0"
edition = "2021"
publish = false

[dependencies]
ed25519-dalek = "*"
blsttc = "*"
threshold_crypto = "*"
rand = "*"

[dev-dependencies]
hex = "*"
