[package]
name = "request_ct"
version = "0.1.0"
edition = "2021"
publish = false

[dependencies]
proxy-wasm = "*"
serde = { version = "*", features = ["derive"] }
serde_json = "*"
log = "*"
