[package]
name = "runbridge"
version = "0.1.0"
edition = "2021"
publish = false

[dependencies]
regex = "1"
flate2 = "1"
serde = { version = "1", features = ["derive"] }
serde_json = "1"
chrono = "0.4"
log = "0.4"
env_logger = "0.11"
tokio = { version = "1", features = ["rt", "rt-multi-thread", "macros"] }
