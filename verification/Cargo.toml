[package]
name = "kafka_proxy"
version = "0.1.0"
edition = "2021"
publish = false

[dependencies]
anyhow = "*"
axum = "*"
chrono = "=0.4.45"
clap = { version = "*", features = ["derive", "env"] }
coap = "*"
fern = "*"
log = "*"
posixmq = "*"
rdkafka = "*"
reqwest = { version = "*", default-features = false }
rust_decimal = "=1.43.0"
tokio = { version = "*", features = ["full"] }
