[package]
name = "herobuild"
version = "0.1.0"
edition = "2021"
publish = false

[dependencies]
anyhow = "1"
async-std = { version = "1", features = ["unstable"] }
bollard = "~0.13"
env_logger = "~0.9"
futures = "0.3"
git2 = "~0.14"
log = "0.4"
serde = { version = "1", features = ["derive"] }
sha256 = "~1.0"
smol = "1"
tokio = { version = "1", features = ["full"] }
tokio-stream = "0.1"
toml = "~0.5"
