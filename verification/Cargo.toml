[package]
name = "wryft_live"
version = "0.1.0"
edition = "2021"
publish = false

[dependencies]
chrono = "*"
uuid = "*"
serde = { version = "*", features = ["derive"] }
serde_json = "*"
tokio = { version = "*", features = ["full"] }
axum = { version = "*", features = ["ws"] }
futures = "*"
