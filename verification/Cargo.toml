[package]
name = "infrabot"
version = "0.1.0"
edition = "2021"
publish = false

[dependencies]
anyhow = "=1.0.104"
axum = "=0.7.9"
base64 = "=0.22.1"
jsonwebtoken = "=9.3.1"
rand = "=0.8.8"
reqwest = { version = "=0.12.28", default-features = false, features = ["json", "rustls-tls"] }
serde = { version = "=1.0.229", features = ["derive"] }
serde_json = "=1.0.154"
sha2 = "=0.10.9"
subtle = "=2.6.1"
tokio = { version = "=1.54.1", features = ["macros", "rt-multi-thread", "net", "sync"] }
tracing = "=0.1.44"
tracing-subscriber = { version = "=0.3.23", features = ["env-filter"] }
url = "=2.5.8"
uuid = { version = "=1.29.0", features = ["v4"] }
