[package]
name = "revproxy"
version = "0.1.0"
edition = "2021"
publish = false

[dependencies]
base64 = "0.22"
chrono = "0.4"
http = "0.2"
hyper = { version = "0.14", features = ["full"] }
hyper-tls = "0.5"
native-tls = "0.2"
regex = "1"
scraper = "0.19"
serde_urlencoded = "0.7"
tokio = { version = "1", features = ["full"] }
tokio-stream = "0.1"
toml = "0.8"
url = "2"
