[package]
name = "reactor"
version = "0.1.0"
edition = "2021"
publish = false

[dependencies]
tokio = { version = "=1.54.1", features = ["sync", "rt", "rt-multi-thread", "macros", "net", "time", "io-util"] }
tokio-util = { version = "=0.7.20", features = ["codec"] }
cargo_toml = "=1.0.1"
bincode = "=2.0.1"
serde = { version = "=1.0.229", features = ["derive"] }
serde_json = "=1.0.154"
rand = "=0.9.5"
futures = "=0.3.34"
socket2 = { version = "=0.5.10", features = ["all"] }
log = "=0.4.35"
tracing = "=0.1.44"
clap = { version = "=4.6.7", features = ["derive"] }
env_logger = "=0.11.11"
axum = "=0.8.9"
tower-http = { version = "=0.6.11", features = ["cors", "trace"] }
libloading = "=0.8.9"
tempfile = "=3.27.0"
thiserror = "=2.0.21"
inventory = "=0.3.25"
unicode-ident = "=1.0.27"
