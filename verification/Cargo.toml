[package]
name = "agent_core"
version = "0.1.0"
edition = "2021"
publish = false

[dependencies]
anyhow = "1"
bytes = "1"
chrono = "=0.4.45"
chrono-tz = "=0.10.4"
cron = "=0.15.0"
dashmap = "6"
futures-util = "0.3"
hex = "=0.4.3"
hmac = "=0.12.1"
http-body-util = "0.1"
hyper = { version = "1", features = ["server", "http1"] }
hyper-util = { version = "0.1", features = ["tokio"] }
parking_lot = "0.12"
regex = "=1.13.1"
serde = { version = "1", features = ["derive"] }
serde_json = "=1.0.154"
sha2 = "=0.10.9"
tokio = { version = "1", features = ["rt", "sync", "time", "net", "macros", "fs"] }
tokio-util = "0.7"
tracing = "0.1"
uuid = { version = "=1.29.0", features = ["v4", "v7"] }
