[package]
name = "somfy"
version = "0.1.0"
edition = "2021"
publish = false

[dependencies]
clap = "4"
env_logger = "*"
log = "*"
rppal = "*"
serde = { version = "1", features = ["derive"] }
serde_yaml = "*"
