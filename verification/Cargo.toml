[package]
name = "decimalx"
version = "0.1.8"
edition = "2021"
publish = false

[dependencies]
serde = { version = "1", features = ["derive"] }
