[package]
name = "music_sync"
version = "0.1.0"
edition = "2021"
publish = false

[dependencies]
bytes = "=1.12.1"
biquad = "0.4"
ciborium = "0.2"
colored = "2"
log = "0.4"
realfft = "3"
reqwest = { version = "0.11", default-features = false, features = ["json", "rustls-tls"] }
rustfft = "6"
serde = { version = "1", features = ["derive"] }
tokio = { version = "1", features = ["rt-multi-thread", "macros", "net", "time", "sync", "signal"] }
toml = "0.8"
webrtc-dtls = "0.9"
