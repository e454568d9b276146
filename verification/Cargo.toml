[package]
name = "binscope"
version = "0.1.0"
edition = "2021"
publish = false

[dependencies]
binwalk = "*"
uuid = { version = "*", features = ["v4"] }
axum = { version = "*", features = ["multipart"] }
tokio = { version = "*", features = ["full"] }
serde = { version = "*", features = ["derive"] }
serde_json = "*"
