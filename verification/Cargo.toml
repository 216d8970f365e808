[package]
name = "lean_multisig_bindings"
version = "0.1.0"
edition = "2021"
publish = false

[dependencies]
hex = "0.4"
anyhow = "1"
serde = { version = "1", features = ["derive"] }
serde_json = "1"
same-file = "1"
ethereum_ssz = "*"
pyo3 = "*"
napi = "*"
napi-derive = "*"
