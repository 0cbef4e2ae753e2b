[package]
name = "fbox"
version = "0.1.0"
edition = "2021"
publish = false

[dependencies]
base64 = "*"
tiny-bip39 = "*"
tokio = { version = "1", features = ["full"] }
warp = "0.3"
hyper = "0.14"
http = "0.2"
futures = "0.3"
serde = { version = "1", features = ["derive"] }
serde_json = "1"
uuid = { version = "1", features = ["serde"] }
bytes = "1"
log = "0.4"
env_logger = "*"
chrono = "0.4"
config = "*"
anyhow = "1"
