[package]
name = "hashcards"
version = "0.1.0"
edition = "2021"
publish = false

[dependencies]
pulldown-cmark = "*"
percent-encoding = "*"
serde = { version = "*", features = ["derive"] }
serde_json = "*"
toml = "*"
walkdir = "*"
chrono = "*"
log = "*"
axum = "*"
tokio = { version = "*", features = ["full"] }
maud = "*"
rusqlite = { version = "*", features = ["bundled"] }
reqwest = { version = "*", default-features = false, features = ["rustls-tls"] }
