[package]
name = "airpcez"
version = "0.1.0"
edition = "2021"
publish = false

[dependencies]
sysinfo = "0.31"
serde = { version = "1", features = ["derive"] }
serde_json = "1"
toml = "0.8"
tokio = { version = "1", features = ["full"] }
axum = { version = "0.7", features = ["ws"] }
reqwest = { version = "0.12", features = ["json"] }
futures-util = "0.3"
