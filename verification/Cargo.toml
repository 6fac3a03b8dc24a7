[package]
name = "optacore"
version = "0.1.0"
edition = "2021"
publish = false

[dependencies]
rand = "=0.9.5"
regex-syntax = "=0.8.11"
uuid = { version = "=1.29.0", features = ["v4"] }
base64 = "0.21"
serde = { version = "=1.0.229", features = ["derive"] }
serde_json = "=1.0.154"
anyhow = "=1.0.104"
log = "=0.4.34"
tokio = { version = "1", features = ["fs", "process", "time", "sync", "rt", "macros"] }
dirs = "5"
chrono = "0.4"
once_cell = "1"
reqwest = { version = "0.12", default-features = false, features = ["json", "rustls-tls"] }
jni = "0.21"
pyo3 = "0.20"
wasm-bindgen = "0.2"
console_error_panic_hook = "0.1"

[dev-dependencies]
regex = "=1.13.1"
