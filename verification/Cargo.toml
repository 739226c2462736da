[package]
name = "kynos"
version = "0.1.0"
edition = "2021"
publish = false

[dependencies]
http = "1"
bytes = "1"
http-body = "1"
http-body-util = "0.1"
futures-core = "0.3"
tokio = { version = "1", features = ["io-util", "sync", "time", "rt", "macros"] }
async-compression = { version = "0.4", features = ["tokio", "gzip", "brotli", "zstd"] }
tracing = "0.1"
thiserror = "2"
