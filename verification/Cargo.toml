[package]
name = "itretail_automation"
version = "0.1.0"
edition = "2021"
publish = false

[dependencies]
fancy-regex = "*"
itertools = "*"
serde = { version = "*", features = ["derive"] }
serde_json = "*"
