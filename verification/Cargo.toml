[package]
name = "tagmap"
version = "0.1.0"
edition = "2021"
publish = false

[dependencies]
eva-common = "*"
serde = { version = "1", features = ["derive"] }
