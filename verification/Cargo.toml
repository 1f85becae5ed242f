[package]
name = "xrs_node"
version = "0.1.0"
edition = "2021"
publish = false

[dependencies]
sha2 = "=0.11.0"
scrypt = "=0.12.0"
hex = "=0.4.3"
rs_merkle = "=1.5.0"
chrono = "=0.4.45"
rand = "=0.10.3"
solana-sdk = "=5.0.0"
serde = { version = "*", features = ["derive"] }
serde_json = "*"
bincode = "=1.3.3"
base64 = "=0.22.1"
