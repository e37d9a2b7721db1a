[package]
name = "substitution_breaker"
version = "0.1.0"
edition = "2021"

[dependencies]
unicode-segmentation = "1"
serde = { version = "1", features = ["derive"] }
serde_json = "1"
utf8-chars = "*"
