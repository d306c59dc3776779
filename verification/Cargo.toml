[package]
name = "call_recorder"
version = "0.1.0"
edition = "2021"
publish = false

[dependencies]
anyhow = "=1.0.104"
base64 = "=0.22.1"
chrono = "=0.4.45"
cpal = "0.17"
futures-util = "=0.3.34"
hound = "=3.5.1"
open = "=5.4.5"
reqwest = { version = "=0.12.28", default-features = false, features = ["blocking", "json", "multipart", "rustls-tls", "stream"] }
screencapturekit = "1"
serde = { version = "=1.0.229", features = ["derive"] }
serde_json = "=1.0.154"
tokio = { version = "=1.54.1", features = ["fs", "io-util", "rt-multi-thread"] }
uuid = { version = "=1.29.0", features = ["v4"] }
whisper-rs = "0.15"
