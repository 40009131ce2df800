[package]
name = "wasmhive"
version = "0.1.0"
edition = "2021"
publish = false

[dependencies]
anyhow = "=1.0.104"
base64 = "=0.22.1"
bytes = "=1.12.1"
chrono = "=0.4.45"
clap = { version = "=4.6.7", features = ["derive"] }
futures-util = "=0.3.34"
image = { version = "=0.25.10", default-features = false, features = ["png"] }
proc-macro2 = "=1.0.107"
quote = "=1.0.47"
serde = { version = "=1.0.229", features = ["derive"] }
serde_json = "=1.0.154"
syn = { version = "=2.0.119", features = ["full"] }
tokio = { version = "=1.54.1", features = ["full"] }
tokio-tungstenite = "=0.20.1"
url = "=2.5.8"
uuid = { version = "=1.29.0", features = ["v4"] }
walkdir = "=2.5.0"
wasm-bindgen = "=0.2.130"
wasm-bindgen-futures = "0.4"
web-sys = { version = "0.3", features = ["Request", "RequestInit", "RequestMode", "Response", "Window"] }
webrtc = "=0.11.0"
