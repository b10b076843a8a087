[package]
name = "coignet"
version = "0.1.0"
edition = "2021"
publish = false

[dependencies]
lru = "*"
lru-cache = "*"
bincode = "1"
serde = { version = "1", features = ["derive"] }
serde_json = "1"
failure = "0.1"
rocket = { version = "0.5", features = ["json"] }
