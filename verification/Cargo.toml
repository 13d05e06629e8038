[package]
name = "llama-nexus"
version = "0.1.0"
edition = "2021"
publish = false

[dependencies]
axum = { version = "=0.8.9", default-features = false, features = ["http1", "json", "query", "tokio"] }
chat-prompts = "=0.35.3"
chrono = "=0.4.45"
clap = { version = "=4.6.7", features = ["derive"] }
config = { version = "=0.15.11", default-features = false, features = ["toml"] }
endpoints = "=0.38.0"
once_cell = "1"
reqwest = { version = "=0.12.28", default-features = false, features = ["json"] }
rmcp = { version = "=0.3.2", default-features = false, features = ["auth", "base64", "client", "macros", "transport-sse-client", "transport-streamable-http-client"] }
serde = { version = "1", features = ["derive"] }
serde_json = "=1.0.145"
sqlx = { version = "=0.8.6", default-features = false, features = ["runtime-tokio", "sqlite", "chrono"] }
tokio = { version = "1", features = ["fs", "io-std", "io-util", "macros", "net", "rt-multi-thread", "signal", "sync", "time"] }
tokio-util = "0.7"
tower-http = { version = "0.6", features = ["cors", "fs", "trace"] }
tracing = "0.1"
tracing-subscriber = { version = "0.3", default-features = false, features = ["ansi", "fmt"] }
uuid = { version = "=1.29.0", features = ["v4"] }
