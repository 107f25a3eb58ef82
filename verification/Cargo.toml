[package]
name = "dual_abi"
version = "0.1.0"
edition = "2021"
publish = false

[dependencies]
libc = "0.2"
boltffi = "*"
pyo3 = { version = "0.26", features = ["abi3-py311", "extension-module"] }
