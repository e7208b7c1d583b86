[package]
name = "highlight_notifier"
version = "0.1.0"
edition = "2021"
publish = false

[dependencies]
base64 = "=0.22.1"
serde = { version = "1", features = ["derive"] }
serde_json = "1"
reqwest = "0.12"
clipboard-rs = "0.2"
