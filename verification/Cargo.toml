[package]
name = "iroh_ble_transport"
version = "0.1.0"
edition = "2021"
publish = false

[dependencies]
arc-swap = "1"
async-trait = "0.1"
blew = "=0.3.0"
bytes = "1"
iroh = { version = "=0.98.2", default-features = false, features = ["unstable-custom-transports", "tls-ring"] }
iroh-base = { version = "=0.98.0", features = ["key"] }
n0-future = "0.3"
n0-watcher = "0.6"
noq-proto = { version = "0.17", default-features = false }
noq-udp = { version = "0.10", default-features = false }
parking_lot = "0.12"
serde = { version = "1", features = ["derive"] }
thiserror = "2"
tokio = { version = "=1.54.1", features = ["full"] }
tokio-stream = "0.1"
tracing = "0.1"
uuid = "=1.29.0"
