[package]
name = "netlyser"
version = "0.1.0"
edition = "2021"
publish = false

[dependencies]
chrono = "*"
clap = "2"
env_logger = "*"
log = "*"
notify-rust = "*"
regex = "*"
rusqlite = { version = "*", features = ["bundled"] }
serde = "*"
serde_derive = "*"
serde-xml-rs = "*"
serde_yaml = "*"
tempfile = "*"
