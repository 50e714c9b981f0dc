[package]
name = "pet_scheduler"
version = "0.1.0"
edition = "2021"
publish = false

[dependencies]
serde_json = "1"
cron = "*"
chrono = "0.4"
uuid = { version = "1", features = ["v4"] }
rusqlite = { version = "*", features = ["bundled"] }
