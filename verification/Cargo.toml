[package]
name = "kafkamitter"
version = "0.3.0"
edition = "2021"
publish = false

[dependencies]
anyhow = "=1.0.104"
base64 = "=0.22.1"
chrono = "=0.4.45"
futures = "=0.3.34"
log = "=0.4.35"
memchr = "=2.8.3"
rdkafka = "=0.39.0"
rdkafka-sys = "=4.10.0"
rustls-native-certs = "=0.8.5"
security-framework = "3"
serde = { version = "=1.0.229", features = ["derive"] }
serde_json = { version = "=1.0.154", features = ["preserve_order"] }
smol = "=2.0.2"
