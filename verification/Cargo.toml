[package]
name = "beachhead_companion"
version = "0.1.0"
edition = "2021"
publish = false

[dependencies]
redis = "*"
signal-hook = "*"

[dev-dependencies]
serde_json = "*"
