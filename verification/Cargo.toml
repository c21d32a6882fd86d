[package]
name = "genesis"
version = "0.1.0"
edition = "2021"
publish = false

[dependencies]
anyhow = "=1.0.104"
axum = { version = "=0.8.9", features = ["ws"] }
futures-util = "=0.3.34"
hex = "=0.4.3"
notify = "=8.2.1"
notify-debouncer-full = "=0.6.0"
serde = { version = "=1.0.229", features = ["derive"] }
serde_json = "=1.0.154"
sha2 = "=0.10.9"
tokio = { version = "=1.54.1", features = ["full"] }
toml = "=0.9.12"
tracing = "=0.1.44"
tracing-subscriber = { version = "=0.3.23", features = ["env-filter"] }
uuid = { version = "=1.29.0", features = ["v4"] }
wasmtime = "=45.0.3"
wasmtime-wasi = "=45.0.3"
wasmtime-wasi-http = "=45.0.3"
