[package]
name = "packrat"
version = "0.1.0"
edition = "2021"
publish = false

[dependencies]
tiktoken-rs = "*"
uuid = { version = "*", features = ["v4"] }
serde = { version = "*", features = ["derive"] }
toml = "*"
directories = "*"

[dev-dependencies]
csv = "*"
