[package]
name = "rzgate"
version = "0.1.0"
edition = "2021"
publish = false

[dependencies]
uuid = "1"
chrono = { version = "0.4", default-features = false, features = ["clock", "std"] }
once_cell = "1"
itoa = "1"
num_cpus = "1"
bytes = "1"
serde = { version = "1", features = ["derive"] }
serde_json = "1"
serde_yaml = "0.9"
thiserror = "1"
tokio = { version = "1", features = ["rt-multi-thread", "macros", "net", "io-util", "sync", "time", "signal", "fs"] }
tokio-util = "0.7"
axum = "0.7"
axum-server = "0.7"
tower-http = { version = "0.6", features = ["cors"] }
tracing = "0.1"
tracing-subscriber = { version = "0.3", features = ["fmt", "time"] }
clap = { version = "4", features = ["derive"] }
metrics = "0.24"
metrics-exporter-prometheus = { version = "0.16", default-features = false }
reqwest = { version = "0.12", default-features = false, features = ["json"] }
futures = "0.3"
arc-swap = "1"
rustc-hash = "2"
