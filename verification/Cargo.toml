[package]
name = "blog"
version = "0.1.0"
edition = "2021"
publish = false

[dependencies]
chrono = "*"
env_logger = "*"
iron = "*"
logger = "*"
router = "*"
uuid = { version = "*", features = ["v4"] }
