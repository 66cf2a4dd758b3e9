[package]
name = "piet"
version = "0.1.0"
edition = "2021"
publish = false

[dependencies]
clap = { version = "4", features = ["derive"] }
image = { version = "0.25", default-features = false, features = ["png", "gif", "bmp"] }
log = "0.4"
pretty_env_logger = "0.5"
