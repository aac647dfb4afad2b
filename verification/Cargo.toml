[package]
name = "stalkerhek_engine"
version = "0.1.0"
edition = "2021"
publish = false

[dependencies]
aes = "=0.8.4"
cbc = "=0.1.2"
sha1 = "=0.10.7"
rand = "=0.8.8"
url = "=2.5.8"
serde = { version = "=1.0.229", features = ["derive"] }
serde_json = "=1.0.154"
tokio = { version = "=1.54.1", features = ["full"] }
axum = "=0.7.9"
reqwest = { version = "=0.12.28", default-features = false, features = ["rustls-tls", "json", "http2"] }
tower-http = { version = "=0.5.2", features = ["trace"] }
tracing = "=0.1.44"
tracing-subscriber = { version = "=0.3.23", features = ["env-filter"] }
jni = "=0.21.1"
log = "=0.4.35"
android_logger = "=0.13.3"
