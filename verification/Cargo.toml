[package]
name = "plonky2x"
version = "0.1.0"
edition = "2021"
publish = false

[dependencies]
plonky2 = "=1.1.0"
serde = { version = "=1.0.229", features = ["derive"] }
serde_json = "=1.0.151"
env_logger = "=0.11.11"
anyhow = "=1.0.104"

[dev-dependencies]
rand = "=0.10.3"
