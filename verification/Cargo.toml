[package]
name = "frost_doh"
version = "0.1.0"
edition = "2021"
publish = false

[dependencies]
punycode = "=0.4.1"
tokio = { version = "=1.53.2", features = ["rt-multi-thread", "macros"] }
zbus = { version = "=5.19.0", default-features = false, features = ["tokio"] }
zvariant = "*"
serde = { version = "=1.0.229", features = ["derive"] }
serde_json = "=1.0.151"
async-sqlite = "=0.6.0"
configparser = "=3.3.0"
reqwest = { version = "=0.12.28", default-features = false, features = ["json", "gzip", "brotli", "rustls-tls", "http2"] }
tracing = "=0.1.44"
tracing-subscriber = "=0.3.23"
