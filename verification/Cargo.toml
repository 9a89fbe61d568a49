[package]
name = "foamer"
version = "0.1.0"
edition = "2021"
publish = false

[dependencies]
anyhow = "1"
aws-config = "*"
aws-sdk-dynamodb = "*"
axum = "*"
chrono = { version = "=0.4.45", features = ["serde"] }
rand = "=0.8.8"
reqwest = { version = "*", default-features = false, features = ["json", "rustls-tls"] }
serde = { version = "1", features = ["derive"] }
tokio = { version = "1", features = ["macros", "rt-multi-thread", "net"] }
tower-http = { version = "*", features = ["cors", "trace"] }
tracing = "*"
uuid = { version = "=1.27.0", features = ["v4"] }
