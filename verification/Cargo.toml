[package]
name = "amardiscord"
version = "0.1.0"
edition = "2021"
publish = false

[dependencies]
askama_escape = "*"
serde = { version = "*", features = ["derive"] }
serde_json = "*"
chrono = { version = "*", features = ["serde"] }
