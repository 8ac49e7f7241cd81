[package]
name = "nerve"
version = "0.1.0"
edition = "2021"
publish = false

[dependencies]
anyhow = "1"
clap = { version = "4", features = ["derive", "env"] }
flate2 = "=1.1.10"
hex = "=0.4.3"
hmac = "=0.12.1"
jsonwebtoken = { version = "=9.3.1", default-features = false }
mime = "0.3"
mio = { version = "1", features = ["os-poll", "net"] }
opentelemetry = "0.31"
opentelemetry-appender-tracing = "0.31"
opentelemetry-otlp = { version = "0.31", features = ["trace", "logs", "grpc-tonic", "http-proto", "http-json", "reqwest-blocking-client"] }
opentelemetry-semantic-conventions = "0.31"
opentelemetry_sdk = "0.31"
rand = "=0.9.5"
reqwest = { version = "=0.12.28", default-features = false, features = ["json"] }
ruma = { version = "=0.14.1", default-features = false }
serde = { version = "1", features = ["derive"] }
serde_json = "=1.0.154"
sha1 = "=0.10.7"
sha2 = "=0.10.9"
tokio = { version = "1", features = ["macros", "rt-multi-thread", "net", "io-util", "signal", "sync", "time"] }
tracing = "0.1"
tracing-opentelemetry = "0.32"
tracing-subscriber = { version = "0.3", features = ["env-filter"] }
vodozemac = "=0.9.0"
zerocopy = { version = "=0.8.63", features = ["derive"] }
