[package]
name = "tumbor"
version = "0.1.0"
edition = "2021"
publish = false

[dependencies]
lru = "0.6"
percent-encoding = "2"
axum = "0.7"
tokio = { version = "1", features = ["rt-multi-thread", "macros", "net", "sync", "fs"] }
reqwest = { version = "0.12", default-features = false, features = ["rustls-tls"] }
image = { version = "0.24", default-features = false, features = ["jpeg", "png"] }
serde = { version = "1", features = ["derive"] }
tracing = "0.1"
tracing-subscriber = "0.3"

[dev-dependencies]
sqlparser = "0.10"
