[package]
name = "hotkey_bridge"
version = "0.1.0"
edition = "2021"
publish = false

[dependencies]
device_query = "*"
futures-util = "0.3"
serde_json = "1"
tokio = { version = "1", features = ["macros", "rt-multi-thread", "net", "sync", "time"] }
tokio-tungstenite = "0.21"
