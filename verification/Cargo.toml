[package]
name = "lightnotes"
version = "0.1.0"
edition = "2021"
publish = false

[dependencies]
web-time = "1"
serde = { version = "1", features = ["derive"] }
serde_json = "1"
tokio = { version = "1", features = ["time", "rt"] }
notify-rust = "4"
