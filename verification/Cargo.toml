[package]
name = "glacier2obj"
version = "0.1.0"
edition = "2021"
publish = false

[dependencies]
anyhow = "1"
itertools = "*"
reqwest = { version = "*", features = ["blocking"] }
rpkg-rs = "*"
serde = { version = "1", features = ["derive"] }
serde_json = "1"
serde-smile = "*"
