[package]
name = "blindtest"
version = "0.1.0"
edition = "2021"
publish = false

[dependencies]
env_logger = "0.11"
poise = "0.6"
serde = { version = "1", features = ["derive"] }
serde_json = "1"
serenity = "0.12"
tokio = { version = "1", features = ["macros", "rt-multi-thread", "sync"] }
