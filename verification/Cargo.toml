[package]
name = "tube"
version = "0.1.0"
edition = "2021"
publish = false

[dependencies]
tracing = "0.1"
tracing-subscriber = { version = "0.3", features = ["env-filter", "fmt"] }
thiserror = "2"
serde = { version = "1", features = ["derive"] }
serde_json = "1"
config = { version = "0.15", default-features = false, features = ["toml"] }
reqwest = { version = "0.12", default-features = false, features = ["json", "stream", "rustls-tls", "hickory-dns"] }
rustls = { version = "0.23", default-features = false, features = ["ring", "std", "tls12", "logging"] }
webpki-root-certs = "*"
tokio = { version = "1", features = ["full"] }
tokio-util = { version = "0.7", features = ["io", "io-util"] }
futures-util = "0.3"
flate2 = "1"
tar = "0.4"
zstd = "*"
