[package]
name = "apiary"
version = "0.1.0"
edition = "2021"
publish = false

[dependencies]
actix = "*"
actix-rt = "*"
base64 = "*"
chrono = "*"
env_logger = "*"
futures-util = "*"
lapin = "*"
log = "*"
rand = "0.8"
serde = { version = "*", features = ["derive"] }
serde_json = "*"
tokio = { version = "*", features = ["rt", "macros", "signal", "sync"] }
toml = "*"
