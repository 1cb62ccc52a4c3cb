[package]
name = "rust_challenge"
version = "0.1.0"
edition = "2021"
publish = false

[dependencies]
num-bigint = "=0.4.8"
multiversx-sc = "=0.53.2"
multiversx-sc-snippets = "=0.53.2"
clap = { version = "=4.5.60", features = ["derive"] }
tokio = { version = "=1.54.1", features = ["macros", "rt-multi-thread"] }
env_logger = "=0.11.6"
serde = { version = "=1.0.210", features = ["derive"] }
toml = "=0.8.23"
