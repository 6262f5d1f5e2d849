[package]
name = "lean_state"
version = "0.1.0"
edition = "2021"
publish = false

[dependencies]
alloy-primitives = { version = "*", features = ["serde"] }
anyhow = "*"
ethereum_ssz = "*"
ethereum_ssz_derive = "*"
itertools = "*"
serde = { version = "*", features = ["derive"] }
serde_json = "*"
ssz_types = "*"
tracing = "*"
tree_hash = "*"
tree_hash_derive = "*"
