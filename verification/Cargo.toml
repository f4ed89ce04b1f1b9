[package]
name = "pulsebox"
version = "0.1.0"
edition = "2021"
publish = false

[dependencies]
image = { version = "=0.25.10", default-features = false, features = ["png", "gif", "jpeg", "bmp", "webp"] }
base64 = "=0.22.1"
serde = { version = "=1.0.229", features = ["derive"] }
tokio = { version = "=1.54.1", features = ["net", "io-util", "sync", "time", "rt", "macros"] }
mdns-sd = "=0.13.11"
cpal = "=0.15.3"
