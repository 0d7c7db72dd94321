[package]
name = "mctext"
version = "0.1.0"
edition = "2021"
publish = false

[dependencies]
serde_json = "1"
serde = { version = "1", features = ["derive"] }
fontdue = "*"
wasm-bindgen = "0.2"
serde-wasm-bindgen = "*"
pyo3 = "*"
