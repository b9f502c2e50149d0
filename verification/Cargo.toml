[package]
name = "dope"
version = "0.1.0"
edition = "2021"
publish = false

[dependencies]
http = "1"
serde_json = "1"
serde = { version = "1", features = ["derive"] }
toml = "*"
hudsucker = "*"
axum = "*"
tokio = { version = "1", features = ["full"] }
tokio-util = { version = "*", features = ["io"] }
async-compression = { version = "*", features = ["tokio", "gzip", "brotli", "zlib", "zstd"] }
http-body-util = "*"
tracing = "*"
tracing-appender = "*"
tracing-subscriber = { version = "*", features = ["env-filter"] }
uuid = { version = "1", features = ["v4"] }
