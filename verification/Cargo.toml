[package]
name = "tack"
version = "0.1.0"
edition = "2021"
publish = false

[dependencies]
sha2 = "0.10"
base64 = "0.22"
uuid = { version = "1", features = ["v4"] }
chrono = "0.4"
serde = { version = "1", features = ["derive"] }
serde_json = "1"
rusqlite = { version = "*", features = ["bundled"] }
clap = { version = "4", features = ["derive"] }
dirs = "*"
tiny_http = "0.12"
socket2 = "*"
notify = "*"
