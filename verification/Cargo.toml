[package]
name = "audit_trail"
version = "0.1.0"
edition = "2021"
publish = false

[dependencies]
actix = "*"
chrono = "*"
serde = { version = "*", features = ["derive"] }
serde_json = "*"
