[package]
name = "nekonote"
version = "0.1.0"
edition = "2021"
publish = false

[dependencies]
regex = "1"
scraper = "*"
hex = "0.4"
encoding_rs = "0.8"
urlencoding = "2"
serenity = "0.12"
tokio = { version = "1", features = ["macros", "rt-multi-thread"] }
reqwest = "0.11"
moka = { version = "0.12", features = ["future"] }
serde_json = "1"
chrono = "0.4"
