[package]
name = "usage_stats"
version = "0.1.0"
edition = "2021"
publish = false

[dependencies]
chrono = "=0.4.45"
serde = { version = "=1.0.229", features = ["derive"] }
serde_json = "=1.0.154"
dirs = "=6.0.0"
log = "=0.4.35"
zstd = "0.13"
