[package]
name = "defacto"
version = "0.1.0"
edition = "2021"
publish = false

[dependencies]
json = "=0.12.4"
subtp = "=0.2.0"
scraper = "=0.23.1"
reqwest = { version = "*", default-features = false, features = ["cookies", "rustls-tls"] }
reqwest_cookie_store = "*"
tokio = { version = "*", features = ["full"] }
anyhow = "*"
csv = "*"
toml = "*"
serde = { version = "*", features = ["derive"] }
tracing = "*"
tracing-subscriber = { version = "*", features = ["env-filter"] }
ffmpeg-next = "*"
whisper-rs = "*"
