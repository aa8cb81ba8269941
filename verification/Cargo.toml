[package]
name = "cfnat"
version = "0.1.0"
edition = "2021"
publish = false

[dependencies]
http = "1"
hyper = { version = "1", features = ["client", "http1"] }
hyper-util = { version = "0.1", features = ["client-legacy", "http1", "tokio"] }
hyper-rustls = { version = "0.27", default-features = false, features = ["ring", "http1", "webpki-roots", "tls12"] }
rustls-pki-types = "1"
tower-service = "0.3"
tokio = { version = "1", features = ["full"] }
tokio-util = "0.7"
tokio-stream = "0.1"
parking_lot = "0.12"
serde = { version = "1", features = ["derive"] }
axum = "0.8"
tower-http = { version = "0.6", features = ["cors"] }
