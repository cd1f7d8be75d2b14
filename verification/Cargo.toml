[package]
name = "fetch_links"
version = "0.1.0"
edition = "2021"
publish = false

[dependencies]
scraper = "*"
url = "*"
reqwest = { version = "*", default-features = false }
