[package]
name = "nanodb"
version = "0.1.0"
edition = "2021"
publish = false

[dependencies]
serde_json = "*"
log = "*"
env_logger = "*"
