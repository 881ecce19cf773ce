[package]
name = "recap"
version = "0.1.0"
edition = "2021"
publish = false

[dependencies]
chrono = { version = "*", features = ["serde"] }
comfy-table = "*"
console = "*"
dirs = "*"
serde = { version = "*", features = ["derive"] }
serde_json = "*"
