[package]
name = "harukacrypto"
version = "0.1.0"
edition = "2021"
publish = false

[dependencies]
aes = "0.8"
getrandom = "0.2"
sha2 = "0.10"
pyo3 = { version = "0.26", features = ["extension-module", "abi3-py38"] }
