[package]
name = "forestry"
version = "0.1.0"
edition = "2021"
publish = false

[dependencies]
anyhow = "1"
clap = { version = "4", features = ["derive"] }
env_logger = "0.11"
globset = "0.4"
ignore = "0.4"
log = "0.4"
serde = { version = "1", features = ["derive"] }
thiserror = "1"
toml = "0.8"
