[package]
name = "clewdr"
version = "0.1.0"
edition = "2021"
publish = false

[dependencies]
chrono = "=0.4.45"
serde = { version = "*", features = ["derive"] }
serde_json = "*"
tokio = { version = "*", features = ["rt-multi-thread", "macros", "sync", "fs", "time"] }
axum = "*"
futures = "*"
async-stream = "*"
bytes = "*"
http = "*"
tracing = "*"
colored = "*"
eventsource-stream = "*"
uuid = { version = "*", features = ["v4"] }
