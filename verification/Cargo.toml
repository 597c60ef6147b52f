[package]
name = "gh-release-watcher"
version = "0.1.0"
edition = "2021"
publish = false

[dependencies]
regex = "=1.13.1"
reqwest = { version = "=0.12.28", default-features = false, features = ["blocking", "rustls-tls"] }
scraper = "=0.29.0"
standard_paths = "=2.1.0"
toml = { version = "0.8", features = ["preserve_order"] }
url = "=2.5.8"
