[package]
name = "pcanwork"
version = "0.1.0"
edition = "2021"
publish = false

[dependencies]
anyhow = "=1.0.104"
chrono = "=0.4.45"
crossbeam-channel = "=0.5.17"
libloading = "=0.8.9"
serde = { version = "=1.0.229", features = ["derive"] }
serde_json = "=1.0.154"
tokio = { version = "=1.54.1", features = ["rt-multi-thread", "net", "time", "sync", "io-util", "macros"] }
tokio-modbus = { version = "=0.17.0", features = ["tcp", "rtu", "tcp-server", "rtu-server", "rtu-over-tcp-server"] }
tokio-serial = { version = "=5.5.0", default-features = false }
