[package]
name = "instant_json"
version = "0.1.0"
edition = "2021"
publish = false

[dependencies]
pest = "*"
pest_meta = "*"
pest_vm = "*"
serde = { version = "*", features = ["derive"] }
serde-wasm-bindgen = "*"
wasm-bindgen = "*"
