[package]
name = "wordsearch"
version = "0.1.0"
edition = "2021"
publish = false

[dependencies]
gcd = "*"
serde = { version = "1", features = ["derive"] }
serde_json = "1"
