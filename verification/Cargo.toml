[package]
name = "pubsub_server"
version = "0.1.0"
edition = "2021"
publish = false

[dependencies]
actix-web = "4"
actix-web-httpauth = "0.6"
clap = { version = "3", features = ["derive"] }
dotenv = "0.15"
env_logger = "0.9"
futures = "0.3"
jsonwebtoken = "8"
log = "0.4"
parking_lot = "0.12"
pin-project = "1"
redis = { version = "0.21", features = ["tokio-comp"] }
serde = { version = "1", features = ["derive"] }
serde_json = { version = "1", features = ["raw_value"] }
serde_qs = "0.9"
tokio = { version = "1", features = ["full"] }
tokio-stream = { version = "0.1", features = ["net", "signal", "sync"] }
tokio-tungstenite = "0.17"

[dev-dependencies]
url = "2"
