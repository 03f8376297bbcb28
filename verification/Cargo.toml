[package]
name = "quickstitch"
version = "0.1.0"
edition = "2021"
publish = false

[dependencies]
image = { version = "*", default-features = false, features = ["png", "jpeg", "webp"] }
clap = { version = "*", features = ["derive"] }
env_logger = "*"
log = "*"
