[package]
name = "vibrev"
version = "0.1.0"
edition = "2021"
publish = false

[dependencies]
anyhow = "=1.0.104"
axum = "=0.8.9"
bytes = "=1.12.1"
clap = { version = "=4.6.7", features = ["derive"] }
darling = "0.23"
flate2 = "=1.1.10"
http = "=1.5.0"
http-body-util = "=0.1.5"
proc-macro2 = "=1.0.107"
quote = "=1.0.47"
rmcp = { version = "=3.8.0", features = ["server", "macros", "schemars", "transport-io", "transport-streamable-http-server"] }
schemars = "=1.2.3"
serde = { version = "=1.0.229", features = ["derive"] }
serde_json = "=1.0.154"
syn = { version = "=2.0.119", features = ["full", "extra-traits"] }
thiserror = "=2.0.21"
tokio = { version = "=1.54.1", features = ["full"] }
tokio-util = "=0.7.20"
uuid = { version = "=1.29.0", features = ["v4"] }
