[package]
name = "mmt_rs"
version = "0.1.0"
edition = "2021"
publish = false

[dependencies]
serde = { version = "*", features = ["derive"] }
serde_json = "*"
pyo3 = "*"
wasm-bindgen = "*"
