[package]
name = "tickets"
version = "0.1.0"
edition = "2021"
publish = false

[dependencies]
packr-guest = "*"
serde = { version = "1", features = ["derive"] }
serde_json = "1"
