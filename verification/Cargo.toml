[package]
name = "streaming_engine"
version = "0.1.0"
edition = "2021"
publish = false

[dependencies]
async-trait = "0.1"
axum = "0.8"
bytes = "1"
color-eyre = "0.6"
dashmap = "6"
futures = "0.3"
hex = "0.4"
hmac = "0.12"
infer = "*"
metrics = "0.24"
num_cpus = "1"
redis = { version = "*", features = ["tokio-comp"] }
rustfft = "6"
secrecy = "0.10"
serde = { version = "1", features = ["derive"] }
serde_json = "1"
sha1 = "0.10"
sha2 = "0.10"
thiserror = "2"
tokio = { version = "1", features = ["fs", "io-util", "macros", "rt", "rt-multi-thread", "sync", "time"] }
tokio-util = { version = "0.7", features = ["io"] }
tracing = "0.1"
utoipa = "5"
