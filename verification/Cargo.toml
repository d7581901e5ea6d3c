[package]
name = "mirage"
version = "0.1.0"
edition = "2021"
publish = false

[dependencies]
percent-encoding = "2"
html-escape = "0.2"
url = "2"
anyhow = "1"
axum = "0.8"
tokio = { version = "1", features = ["full"] }
reqwest = { version = "0.12", default-features = false, features = ["rustls-tls"] }
serde = { version = "1", features = ["derive"] }
serde_json = "1"
rkyv = "0.8"
tracing = "0.1"
tracing-subscriber = { version = "0.3", features = ["env-filter"] }
indicatif = "0.17"
