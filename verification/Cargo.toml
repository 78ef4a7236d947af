[package]
name = "muharrir"
version = "0.1.0"
edition = "2021"
publish = false

[dependencies]
abaco = "*"
ai-hwaccel = "*"
libro = "*"
serde = { version = "1", features = ["derive"] }
serde_json = "1"
thiserror = "*"
