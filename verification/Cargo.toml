[package]
name = "omem_server"
version = "0.1.0"
edition = "2021"
publish = false

[dependencies]
serde_json = "1"
uuid = { version = "1", features = ["v4"] }
chrono = "0.4"
serde = { version = "1", features = ["derive"] }
axum = "*"
axum-extra = { version = "*", features = ["multipart"] }
async-trait = "*"
