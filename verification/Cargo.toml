[package]
name = "forma"
version = "0.1.3"
edition = "2021"
publish = false

[dependencies]
axum = "0.8"
base64 = "0.22"
ring = "0.17"
rust-embed = "8"
serde = { version = "1", features = ["derive"] }
serde_json = "1"
tracing = "0.1"
wasm-bindgen = "0.2"
