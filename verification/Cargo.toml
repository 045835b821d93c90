[package]
name = "users_service"
version = "0.1.0"
edition = "2021"
publish = false

[dependencies]
postgres = "*"

[dev-dependencies]
serde_json = "1"
