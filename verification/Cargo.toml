[package]
name = "homesite"
version = "0.1.0"
edition = "2021"
publish = false

[dependencies]
rand = "*"
chrono = "0.4"
serde = { version = "1", features = ["derive"] }
serde_json = "1"
toml = "*"
tokio = { version = "1", features = ["full"] }
tokio-rustls = "*"
