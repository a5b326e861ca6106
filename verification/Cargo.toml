[package]
name = "check_program"
version = "0.1.0"
edition = "2021"
publish = false

[dependencies]
anyhow = "1"
bytes = "1"
crc32fast = "1"
flatbuffers = "*"
hmac = "0.12"
rusqlite = { version = "*", features = ["bundled"] }
serde = { version = "1", features = ["derive"] }
serde_json = "1"
sha2 = "0.10"
sled = "0.34"
tokio = { version = "1", features = ["sync", "rt", "macros", "time", "net"] }
tokio-util = { version = "0.7", features = ["codec"] }
