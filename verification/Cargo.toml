[package]
name = "qomicex_core"
version = "0.1.0"
edition = "2021"
publish = false

[dependencies]
regex = "=1.13.1"
sha1 = "=0.10.7"
md-5 = "0.10"
chrono = { version = "=0.4.45", default-features = false, features = ["std"] }
uuid = { version = "=1.29.0", features = ["v4"] }
serde_json = "=1.0.154"
reqwest = { version = "=0.12.28", default-features = false, features = ["rustls-tls", "json", "stream"] }
tokio = { version = "=1.54.1", features = ["full"] }
async-trait = "=0.1.92"
futures = "=0.3.34"
zip = { version = "=2.6.1", default-features = false, features = ["deflate"] }
