[package]
name = "rssrs"
version = "0.1.0"
edition = "2021"
publish = false

[dependencies]
chrono = "*"
rss = "*"
scraper = "*"
serde_json = "*"
url = "*"
reqwest = { version = "*", default-features = false, features = ["blocking"] }
rusqlite = { version = "*", features = ["bundled"] }
