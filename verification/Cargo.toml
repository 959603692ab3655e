[package]
name = "inkscope"
version = "0.1.0"
edition = "2021"
publish = false

[dependencies]
regex = "=1.13.1"
html-escape = "=0.2.15"
scraper = "=0.29.0"
reqwest = { version = "=0.12.28", default-features = false, features = ["json"] }
serde = { version = "=1.0.229", features = ["derive"] }
serde_json = "=1.0.154"
urlencoding = "=2.1.3"
uuid = { version = "=1.29.0", features = ["v4"] }
chrono = "=0.4.45"
futures = "=0.3.34"
rusqlite = { version = "=0.41.1", features = ["bundled"] }
zip = "=9.2.2"
