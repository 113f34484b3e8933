[package]
name = "cbzmaker"
version = "0.1.0"
edition = "2021"
publish = false

[dependencies]
zip = { version = "*", default-features = false, features = ["deflate"] }
walkdir = "*"
chrono = "*"

[dev-dependencies]
serde_json = "*"
