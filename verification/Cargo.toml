[package]
name = "agentgateway"
version = "0.1.0"
edition = "2021"
publish = false

[dependencies]
base64 = "=0.22.1"
serde = { version = "=1.0.229", features = ["derive"] }
serde_json = "=1.0.154"
rand = "=0.8.8"
tokio = { version = "=1.54.1", features = ["time", "sync", "rt", "macros"] }
http = "=1.5.0"
serde_json_path = "*"
