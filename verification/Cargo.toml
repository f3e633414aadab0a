[package]
name = "bubbles_lib"
version = "0.1.0"
edition = "2021"
publish = false

[dependencies]
anyhow = "*"
reqwest = { version = "*", default-features = false, features = ["blocking"] }
scraper = "*"
serde = { version = "*", features = ["derive"] }
serde_json = "*"
