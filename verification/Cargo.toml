[package]
name = "enclave_store"
version = "0.1.0"
edition = "2021"
publish = false

[dependencies]
sha2 = "=0.10.9"
web3 = { version = "=0.19.0", default-features = false }
