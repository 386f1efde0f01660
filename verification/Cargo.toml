[package]
name = "aptcheckr"
version = "0.1.0"
edition = "2021"
publish = false

[dependencies]
libapt = "*"
clap = { version = "*", features = ["cargo"] }
env_logger = "*"
log = "*"
serde = { version = "*", features = ["derive"] }
serde_json = "*"
tokio = { version = "*", features = ["rt-multi-thread", "macros"] }
