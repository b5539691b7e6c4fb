[package]
name = "etf_holdings"
version = "0.1.0"
edition = "2021"
publish = false

[dependencies]
async-trait = "0.1"
csv = "=1.3.1"
reqwest = { version = "=0.12.28", default-features = false, features = ["json", "rustls-tls"] }
scraper = "=0.20.0"
serde = { version = "1", features = ["derive"] }
tokio = { version = "1", features = ["rt-multi-thread", "macros", "sync"] }
