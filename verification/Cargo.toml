[package]
name = "market_analyzer"
version = "0.1.0"
edition = "2021"
publish = false

[dependencies]
rust_decimal = "=1.43.0"
chrono = { version = "=0.4.45", features = ["serde"] }
governor = "=0.10.4"
anyhow = "=1.0.104"
thiserror = "=2.0.21"
serde = { version = "=1.0.229", features = ["derive"] }
serde_json = "=1.0.154"
tokio = { version = "=1.54.1", features = ["full"] }
axum = { version = "=0.7.9", features = ["ws", "macros"] }
tower-http = { version = "=0.5.2", features = ["cors", "trace"] }
reqwest = { version = "=0.12.28", default-features = false, features = ["json", "rustls-tls"] }
tokio-tungstenite = "=0.30.0"
futures = "=0.3.34"
async-stream = "=0.3.6"
async-trait = "=0.1.92"
duckdb = "=1.20000.1"
arrow = { version = "=60.1.0", default-features = false, features = ["ipc"] }
prometheus = { version = "=0.14.0", default-features = false }
clap = { version = "=4.6.7", features = ["derive"] }
toml = "=1.1.8"
csv = "=1.4.0"
comfy-table = "=8.0.1"
tracing = "=0.1.44"
tracing-subscriber = { version = "=0.3.23", features = ["env-filter"] }
