[package]
name = "crowdflow"
version = "0.1.0"
edition = "2021"
publish = false

[dependencies]
robust = "1"
serde = { version = "1", features = ["derive"] }
serde_json = "1"
thiserror = "1"
schemars = "0.8"
