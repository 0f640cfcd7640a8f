[package]
name = "shipwright"
version = "0.1.0"
edition = "2021"
publish = false

[dependencies]
blake3 = { version = "=1.8.7", features = ["pure"] }
flate2 = "=1.1.10"
brotli = "=9.1.1"
serde = { version = "=1.0.229", features = ["derive"] }
serde_json = "=1.0.154"
toml = "=1.1.8"
syn = { version = "=2.0.119", features = ["full", "visit"] }
proc-macro2 = { version = "=1.0.107", features = ["span-locations"] }
clap = { version = "=4.6.7", features = ["derive"] }
anyhow = "=1.0.104"
rmp-serde = "=1.3.1"
ciborium = "=0.2.2"
walkdir = "=2.5.0"
tokio = { version = "1", features = ["full"] }
axum = { version = "0.7", features = ["ws"] }
tower-http = { version = "0.5", features = ["fs", "cors"] }
notify = "6"
notify-debouncer-mini = "0.4"
futures-util = "0.3"
tracing = "0.1"
tracing-subscriber = { version = "0.3", features = ["env-filter"] }
uuid = { version = "1", features = ["v4"] }
open = "5"
cargo_metadata = "0.18"
tokio-tungstenite = "0.21"
chrono = "0.4"
thiserror = "1"
