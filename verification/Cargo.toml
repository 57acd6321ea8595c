[package]
name = "short_id"
version = "0.1.0"
edition = "2021"
publish = false

[dependencies]
axum = "*"
futures = "*"
hickory-resolver = "*"
reqwest = { version = "*", default-features = false }
ruma = "*"
serde_json = "*"
