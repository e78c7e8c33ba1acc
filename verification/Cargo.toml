[package]
name = "prometheus_scraper"
version = "0.1.0"
edition = "2021"
publish = false

[dependencies]
bytes = "1"
buffa = "*"
chrono = { version = "0.4", default-features = false, features = ["std", "clock", "serde"] }
serde = { version = "1", features = ["derive"] }
reqwest = { version = "0.12", default-features = false, features = ["stream", "rustls-tls"] }
futures-core = "0.3"
futures-util = "0.3"
async-stream = "0.3"
nom = "8"

[dev-dependencies]
serde_json = "1"
