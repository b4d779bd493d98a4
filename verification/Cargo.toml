[package]
name = "calc_rs"
version = "0.1.0"
edition = "2021"
publish = false

[dependencies]
eyre = "0.6"
pyo3 = { version = "0.18", features = ["extension-module"] }
regex = "1"
