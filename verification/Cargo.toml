[package]
name = "bybit_ws"
version = "0.1.0"
edition = "2021"
publish = false

[dependencies]
serde_json = "1"
chrono = "0.4"
tokio = { version = "1", features = ["macros", "rt", "time", "sync", "net"] }
tokio-tungstenite = "*"
futures-util = "0.3"
tracing = "0.1"
