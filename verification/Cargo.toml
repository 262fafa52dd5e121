[package]
name = "inbox_ui"
version = "0.1.0"
edition = "2021"
publish = false

[dependencies]
base64 = "0.22"
packr-guest = "*"
serde = { version = "1", features = ["derive"] }
serde_json = "1"
