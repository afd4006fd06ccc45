[package]
name = "initiative_manager"
version = "0.1.0"
edition = "2021"
publish = false

[dependencies]
rand = "*"
roman = "*"
serde = { version = "*", features = ["derive"] }
serde_json = "*"
dirs = "*"
