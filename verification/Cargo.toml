[package]
name = "xuflow_core"
version = "0.1.0"
edition = "2021"
publish = false

[dependencies]
scraper = "=0.29.0"
ego-tree = "=0.11.1"
url = "=2.5.8"
serde = { version = "=1.0.229", features = ["derive"] }
serde_json = "=1.0.154"
regex = "=1.13.1"
walkdir = "=2.5.0"
glob = "=0.3.4"
encoding_rs = "=0.8.44"
robotstxt = "=0.3.0"
tokio = { version = "=1.54.1", features = ["full"] }
reqwest = { version = "=0.12.28", default-features = false, features = ["json", "stream", "rustls-tls"] }
rusqlite = { version = "=0.41.1", features = ["bundled"] }
anyhow = "=1.0.104"
thiserror = "=2.0.21"
async-trait = "=0.1.92"
futures-util = "=0.3.34"
dirs = "=7.0.0"
