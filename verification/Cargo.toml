[package]
name = "httpd"
version = "0.1.0"
edition = "2021"
publish = false

[dependencies]
anyhow = "1"
env_logger = "*"
include_dir = "0.7"
log = "0.4"
strum = { version = "*", features = ["derive"] }
thiserror = "*"
tokio = { version = "1", features = ["fs", "io-util", "macros", "net", "rt-multi-thread"] }
tokio-task-pool = "*"
