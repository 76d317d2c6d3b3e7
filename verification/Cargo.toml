[package]
name = "rrdc"
version = "0.1.0"
edition = "2021"
publish = false

[dependencies]
scraper = "*"
serde_json = "*"
reqwest = { version = "*", default-features = false }
tokio = { version = "*", features = ["macros", "rt-multi-thread"] }
clap = { version = "*", features = ["derive"] }
tracing = "*"
tracing-subscriber = "*"
