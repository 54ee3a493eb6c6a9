[package]
name = "rcgi"
version = "0.1.0"
edition = "2021"
publish = false

[dependencies]
base64 = "0.22"
ring = "0.17"
tokio = { version = "1", features = ["full"] }
clap = { version = "4", features = ["derive"] }
chrono = "0.4"
colored = "*"
log = "0.4"
