[package]
name = "jobsched"
version = "0.1.0"
edition = "2021"
publish = false

[dependencies]
env_logger = "*"
log = "*"
serde = { version = "*", features = ["derive"] }
serde_derive = "*"
serde_json = "*"
tokio = { version = "*", features = ["rt-multi-thread", "macros", "time", "signal", "sync"] }
tokio-cron-scheduler = "*"
