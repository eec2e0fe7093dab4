[package]
name = "combo_crawler"
version = "0.1.0"
edition = "2021"
publish = false

[dependencies]
scraper = { version = "0.29", default-features = false, features = ["errors"] }
rusqlite = { version = "0.40", features = ["bundled"] }
reqwest = { version = "0.12", features = ["blocking"] }
lazy_static = "1"
env_logger = "0.11"
