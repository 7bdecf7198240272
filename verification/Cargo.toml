[package]
name = "splendor"
version = "0.1.0"
edition = "2021"
publish = false

[dependencies]
ndarray = "0.16"
rand = "0.8"
serde = { version = "1", features = ["derive"] }
serde_derive = "1"
serde_json = "1"
