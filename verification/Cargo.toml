[package]
name = "air"
version = "0.1.0"
edition = "2021"
publish = false

[dependencies]
fluence-it-types = "*"
marine-rs-sdk = "*"
serde = { version = "1", features = ["derive"] }
serde_json = "1"
typed-index-collections = "*"
