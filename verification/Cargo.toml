[package]
name = "stickynotes"
version = "0.1.0"
edition = "2021"
publish = false

[dependencies]
base64 = "*"
chrono = "*"
dirs = "*"
uuid = { version = "*", features = ["v4"] }

[dev-dependencies]
serde_json = "*"
