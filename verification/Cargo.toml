[package]
name = "dataline"
version = "0.1.0"
edition = "2021"
publish = false

[dependencies]
chrono = "0.4"
rusqlite = { version = "*", features = ["bundled"] }
serde = { version = "1", features = ["derive"] }
serde_json = "1"
sha2 = "0.10"
thiserror = "2"
uniffi = "*"
uuid = { version = "1", features = ["v4"] }

[dev-dependencies]
tempfile = "3"
