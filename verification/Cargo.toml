[package]
name = "sitebuild"
version = "0.1.0"
edition = "2021"
publish = false

[dependencies]
image = "*"
serde_json = "*"
rand = "*"
comrak = { version = "*", default-features = false }
rusqlite = { version = "*", features = ["bundled"] }
