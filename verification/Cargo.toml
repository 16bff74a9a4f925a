[package]
name = "ic_oss_cli"
version = "0.1.0"
edition = "2021"
publish = false

[dependencies]
anyhow = "=1.0.104"
base64 = "=0.22.1"
bytes = "=1.12.1"
candid = { version = "=0.10.39", features = ["value", "printer"] }
chrono = "=0.4.45"
ciborium = "=0.2.2"
clap = { version = "=4.6.7", features = ["derive", "env"] }
futures = "=0.3.34"
globset = "=0.4.21"
hex = "=0.4.3"
ic-agent = "=0.49.3"
infer = "=0.22.0"
mime-db = "=1.8.0"
pem = "=3.0.6"
ring = "=0.17.14"
serde = { version = "=1.0.229", features = ["derive"] }
serde_bytes = "=0.11.19"
serde_json = "=1.0.154"
sha3 = "=0.12.0"
tokio = { version = "=1.54.1", features = ["full"] }
tokio-stream = "=0.1.19"
tokio-util = { version = "=0.7.20", features = ["codec", "io"] }
url = "=2.5.8"
