[package]
name = "palagent_ai"
version = "0.1.0"
edition = "2021"
publish = false

[dependencies]
flate2 = "1"
serde = { version = "1", features = ["derive"] }
serde_json = "1"
chrono = "0.4"
rusqlite = { version = "*", features = ["bundled"] }
libloading = "0.8"
sys-locale = "0.3"
uuid = { version = "1", features = ["v4"] }
