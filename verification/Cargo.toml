[package]
name = "meetcat"
version = "0.1.0"
edition = "2021"
publish = false

[dependencies]
serde = { version = "1", features = ["derive"] }
serde_json = "1"
chrono = { version = "0.4", features = ["serde"] }
dirs = "*"
thiserror = "*"
tokio = { version = "1", features = ["rt-multi-thread", "time", "macros", "sync"] }
