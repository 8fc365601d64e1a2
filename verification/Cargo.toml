[package]
name = "taskmaster"
version = "0.1.0"
edition = "2021"
publish = false

[dependencies]
libc = "=0.2.190"
serde = { version = "=1.0.229", features = ["derive"] }
serde_with = "=3.24.0"
toml = "=0.8.23"
tracing = "=0.1.44"
tracing-subscriber = { version = "0.3", features = ["env-filter"] }
