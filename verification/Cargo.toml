[package]
name = "swono"
version = "0.1.0"
edition = "2021"
publish = false

[dependencies]
chrono = "*"
serde = { version = "*", features = ["derive"] }
config = "*"
log = "*"
env_logger = "*"
