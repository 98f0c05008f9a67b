[package]
name = "appdata_cleaner"
version = "0.1.0"
edition = "2021"
publish = false

[dependencies]
chrono = "*"
sha2 = "*"
dirs-next = "*"
rusqlite = { version = "*", features = ["bundled"] }
serde = { version = "*", features = ["derive"] }
serde_yaml = "*"
