[package]
name = "sd_library"
version = "0.1.0"
edition = "2021"
publish = false

[dependencies]
uuid = { version = "1", features = ["v4"] }
hostname = "0.3"
serde = { version = "1", features = ["derive"] }
serde_json = "1"
