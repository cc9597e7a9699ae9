[package]
name = "hltb"
version = "0.1.0"
edition = "2021"
publish = false

[dependencies]
headless_chrome = "=0.9.0"
scraper = "=0.27.0"
serde = { version = "=1.0.229", features = ["derive"] }
urlencoding = "=2.1.3"
