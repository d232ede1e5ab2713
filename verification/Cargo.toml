[package]
name = "media_tagger"
version = "0.1.0"
edition = "2021"
publish = false

[dependencies]
csv = "1"
regex = "1"
scraper = "*"
walkdir = "2"
serde = { version = "1", features = ["derive"] }
tokio = { version = "1", features = ["macros", "rt-multi-thread"] }
reqwest = { version = "*", default-features = false, features = ["rustls-tls"] }
