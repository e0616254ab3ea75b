[package]
name = "minijq"
version = "0.1.0"
edition = "2021"

[dependencies]
serde_json = { version = "*", features = ["preserve_order"] }
