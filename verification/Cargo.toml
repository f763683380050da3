[package]
name = "convrs"
version = "0.1.0"
edition = "2021"
publish = false

[dependencies]
serde_json = { version = "=1.0.151", features = ["float_roundtrip"] }
serde_yaml = "=0.9.34"
toml = "=0.8.23"
csv = "=1.4.0"
clap = { version = "=4.6.7", features = ["derive"] }
