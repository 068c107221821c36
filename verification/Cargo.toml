[package]
name = "gg2_custom"
version = "0.1.0"
edition = "2021"
publish = false

[dependencies]
serde = { version = "1", features = ["derive"] }
serde_with = "*"
toml = "*"
walkdir = "*"
semver = { version = "1", features = ["serde"] }
thiserror = "*"
log = "*"
env_logger = "*"
clap = { version = "4", features = ["derive"] }
glam = "*"
image = { version = "*", default-features = false, features = ["png"] }
image-atlas = "*"
tokio = { version = "1", features = ["full"] }
crossbeam-channel = "*"
bytemuck = { version = "*", features = ["derive"] }
