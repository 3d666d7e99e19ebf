[package]
name = "ipe_core"
version = "0.1.0"
edition = "2021"
publish = false

[dependencies]
chrono = "=0.4.45"
serde = { version = "=1.0.229", features = ["derive"] }
serde_json = "=1.0.154"
bincode = "=1.3.3"
thiserror = "=2.0.21"
crossbeam-channel = "=0.5.17"
parking_lot = "=0.12.5"
tempfile = "=3.27.0"
tracing = "=0.1.44"
tracing-subscriber = "=0.3.23"
axum = "=0.8.9"
tokio = { version = "=1.54.1", features = ["rt-multi-thread", "macros", "net"] }
tower-http = { version = "=0.7.1", features = ["trace"] }
prometheus = "=0.14.0"
cranelift = "=0.130.2"
cranelift-jit = "=0.130.2"
cranelift-module = "=0.130.2"
cranelift-native = "=0.130.2"
region = "=3.0.2"
