[package]
name = "zaoai_types"
version = "0.1.0"
edition = "2021"
publish = false

[dependencies]
anyhow = "1"
serde = { version = "1", features = ["derive"] }
serde-xml-rs = "*"
serde_json = "1"
soloud = "*"
plotlib = "*"
log = "0.4"
env_logger = "*"
dotenvy = "*"
