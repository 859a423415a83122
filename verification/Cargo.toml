[package]
name = "freenet_todo"
version = "0.1.0"
edition = "2021"
publish = false

[dependencies]
ed25519-dalek = { version = "=2.2.0", features = ["serde"] }
serde = { version = "=1.0.229", features = ["derive"] }
serde_json = "=1.0.154"
bs58 = "=0.5.1"
getrandom = { version = "=0.2.17", features = ["js"] }
freenet-stdlib = { version = "=0.12.1", features = ["net"] }
wasm-bindgen = "=0.2.130"
wasm-bindgen-futures = "=0.4.80"
web-sys = { version = "=0.3.107", features = ["console", "Window", "Location", "WebSocket", "BinaryType"] }
