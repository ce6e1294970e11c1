[package]
name = "usbws"
version = "0.1.0"
edition = "2021"
publish = false

[dependencies]
anyhow = "1"
base64 = "0.22"
blake3 = { version = "1", features = ["pure"] }
chacha20 = "0.9"
chacha20poly1305 = "0.10"
ed25519-dalek = "2"
futures-util = "0.3"
hex = "0.4"
rand = "0.8"
tokio = { version = "1", features = ["io-util", "macros", "net", "rt-multi-thread", "signal", "sync", "time"] }
tokio-tungstenite = "0.24"
x25519-dalek = "2"
