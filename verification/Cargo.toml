[package]
name = "livestream_sfu"
version = "0.1.0"
edition = "2021"
publish = false

[dependencies]
tokio-tungstenite = "=0.30.0"
hyper = { version = "=0.14.32", features = ["server", "http1", "tcp"] }
tokio = { version = "=1.53.2", features = ["rt-multi-thread", "time", "sync", "macros"] }
webrtc = "=0.14.0"
flume = "=0.12.0"
futures-util = { version = "=0.3.34", features = ["sink"] }
anyhow = "=1.0.104"

[dev-dependencies]
serde_json = "=1.0.151"
