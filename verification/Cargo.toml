[package]
name = "smart-file-search"
version = "0.1.0"
edition = "2021"
publish = false

[dependencies]
anyhow = "=1.0.104"
dirs = "=7.0.0"
fastembed = { version = "=7.5.0", default-features = false, features = ["hf-hub-rustls-tls", "ort-load-dynamic"] }
opener = "=0.9.0"
rusqlite = { version = "=0.40.2", features = ["bundled"] }
serde = { version = "=1.0.229", features = ["derive"] }
serde_json = "=1.0.154"
sqlite-vec = "=0.1.9"
walkdir = "=2.5.0"
zerocopy = "=0.8.63"
