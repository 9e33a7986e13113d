[package]
name = "claus"
version = "0.1.0"
edition = "2021"
publish = false

[dependencies]
anyhow = "1"
async-trait = "0.1"
blake3 = "1"
crossterm = "*"
dotenvy = "0.15"
futures-util = "0.3"
notify = "*"
qdrant-client = { version = "1", default-features = false, features = ["serde"] }
ratatui = "*"
reqwest = { version = "0.12", default-features = false, features = ["json", "stream", "rustls-tls"] }
serde = { version = "1", features = ["derive"] }
serde_json = "1"
tokio = { version = "1", features = ["full"] }
tree-sitter = "*"
tree-sitter-python = "*"
tree-sitter-rust = "*"
walkdir = "2"
