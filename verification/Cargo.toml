[package]
name = "eas_attestor"
version = "0.1.0"
edition = "2021"
publish = false

[dependencies]
hex = "0.4"
k256 = { version = "0.13", features = ["ecdsa"] }
rlp = "0.5"
serde_json = "1"
tiny-keccak = { version = "2", features = ["keccak"] }
wasi-http-client = "*"
