[package]
name = "themed"
version = "0.1.0"
edition = "2021"
publish = false

[dependencies]
clap = { version = "=4.6.7", features = ["derive"] }
env_logger = "=0.11.11"
log = "=0.4.35"
serde = "=1.0.229"
serde_json = { version = "=1.0.154", features = ["float_roundtrip"] }
signal-hook = "=0.3.18"
