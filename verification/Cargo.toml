[package]
name = "clawhive"
version = "0.1.0"
edition = "2021"
publish = false

[dependencies]
chrono = "=0.4.45"
chrono-tz = "=0.10.4"
uuid = { version = "=1.29.0", features = ["v4", "v7"] }
serde = { version = "=1.0.229", features = ["derive"] }
serde_json = "=1.0.154"
thiserror = "=2.0.21"
tokio = { version = "=1.54.1", features = ["rt-multi-thread", "macros", "process", "time", "sync", "fs", "io-util", "net"] }
async-trait = "=0.1.92"
base64 = "=0.22.1"
tracing = "=0.1.44"
tracing-subscriber = { version = "*", features = ["env-filter"] }
reqwest = { version = "*", features = ["json"] }
tokio-tungstenite = "*"
futures-util = "*"
tempfile = "*"
dirs = "*"
clap = { version = "*", features = ["derive"] }
axum = "*"
tower-http = { version = "*", features = ["cors", "trace"] }
