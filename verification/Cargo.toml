[package]
name = "m3u8"
version = "0.1.0"
edition = "2021"
publish = false

[dependencies]
regex = "1"
hyper = { version = "0.14", features = ["full"] }
tokio = { version = "1", features = ["full"] }
reqwest = "0.12"
futures = "0.3"
indicatif = "0.17"
clap = { version = "4", features = ["derive"] }
env_logger = "0.11"
log = "0.4"
