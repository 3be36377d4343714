[package]
name = "ocppj"
version = "0.1.0"
edition = "2021"
publish = false

[dependencies]
chrono = "*"
log = "*"
env_logger = "*"
structopt = "0.3"
tungstenite = "*"
rust-ocpp = "*"

[dev-dependencies]
serde_json = "*"
