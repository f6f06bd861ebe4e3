[package]
name = "pillars"
version = "0.1.0"
edition = "2021"
publish = false

[dependencies]
rand = "0.8"
serde = { version = "1.0", features = ["derive"] }
ron = "0.8"
