[package]
name = "sdict"
version = "0.1.0"
edition = "2021"
publish = false

[dependencies]
ammonia = "4"
askama = "0.14"
askama_web = { version = "0.14", features = ["axum-0.8"] }
axum = "0.8"
http-body-util = "0.1"
minify-html = "0.16"
regex = "1"
reqwest = { version = "0.12", default-features = false }
scraper = "0.23"
sentry = { version = "*", default-features = false, features = ["tracing"] }
serde = { version = "1", features = ["derive"] }
serde_json = "1"
tokio = { version = "1", features = ["full"] }
tower-http = { version = "0.6", features = ["fs", "set-header", "trace"] }
tracing = "0.1"
tracing-subscriber = { version = "0.3", features = ["env-filter", "json"] }
urlencoding = "2"
