[package]
name = "moq_pure"
version = "0.1.0"
edition = "2021"
publish = false

[dependencies]
aes = "=0.8.4"
aes-gcm = "=0.10.3"
anyhow = "1"
axum = "0.7"
clap = { version = "4", features = ["derive", "env"] }
hex = "=0.4.3"
hkdf = "=0.12.4"
hmac = "=0.12.1"
hyper-util = { version = "0.1", features = ["server-auto", "service", "tokio", "http1", "http2"] }
quinn-proto = { version = "0.11", default-features = false }
rustls = { version = "=0.23.46", default-features = false, features = ["std", "tls12", "logging"] }
rustls-native-certs = "=0.7.3"
rustls-pemfile = "=2.2.0"
sha2 = "=0.10.9"
tokio = { version = "1", features = ["full"] }
tokio-rustls = { version = "0.26", default-features = false, features = ["tls12", "logging"] }
tower-http = { version = "0.5", features = ["cors"] }
tracing = "0.1"
