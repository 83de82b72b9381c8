[package]
name = "netmon"
version = "0.1.0"
edition = "2021"
publish = false

[dependencies]
rusqlite = { version = "*", features = ["bundled"] }
tokio = { version = "*", features = ["rt-multi-thread", "macros", "net", "time", "sync"] }
chrono = "*"
serde = { version = "*", features = ["derive"] }
toml = "*"
anyhow = "*"
log = "*"
env_logger = "*"
futures = "*"
