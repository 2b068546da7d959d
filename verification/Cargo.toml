[package]
name = "payload_columns"
version = "0.1.0"
edition = "2021"
publish = false

[dependencies]
educe = "*"
ethereum_hashing = "*"
ethereum_serde_utils = "*"
ethereum_ssz = "*"
ethereum_ssz_derive = "*"
hashlink = "0.9"
parking_lot = "0.12"
rayon = "1"
rust_eth_kzg = "*"
safe_arith = "0.1"
serde = { version = "1", features = ["derive"] }
ssz_types = "*"
tokio = { version = "1", features = ["rt", "sync"] }
tracing = "0.1"
tree_hash = "*"
tree_hash_derive = "*"
typenum = "1"
