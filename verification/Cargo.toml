[package]
name = "mprocs"
version = "0.1.0"
edition = "2021"
publish = false

[dependencies]
anyhow = "*"
clap = { version = "*", features = ["cargo"] }
flexi_logger = "*"
log = "*"
indexmap = "*"
portable-pty = "*"
serde = { version = "*", features = ["derive"] }
serde_yaml = "*"
tokio = { version = "*", features = ["full"] }
