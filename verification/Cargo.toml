[package]
name = "instrumentality"
version = "0.1.0"
edition = "2021"
publish = false

[dependencies]
axum = "0.6"
axum-server = { version = "0.5", features = ["tls-rustls"] }
chrono = { version = "0.4", features = ["serde"] }
futures-util = "0.3"
getrandom = "0.2"
mongodb = "2"
serde = { version = "1", features = ["derive"] }
sha2 = "0.10"
tokio = { version = "1", features = ["full"] }
tokio-stream = "0.1"
toml = "0.7"
tower = { version = "0.4", features = ["timeout"] }
tower-http = { version = "0.4", features = ["set-header"] }
tracing = "0.1"
tracing-subscriber = { version = "0.3", features = ["env-filter"] }
uuid = { version = "1", features = ["v4"] }

[dev-dependencies]
regex = "1"
