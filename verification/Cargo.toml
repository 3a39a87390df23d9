[package]
name = "chunking"
version = "0.1.0"
edition = "2021"
publish = false

[dependencies]
anyhow = "1"
indexmap = "1.9"
path-clean = "1.0"
serde = { version = "1", features = ["derive"] }
serde_json = "1"
