[package]
name = "minutes_core"
version = "0.1.0"
edition = "2021"
publish = false

[dependencies]
chrono = { version = "=0.4.45", features = ["serde"] }
cpal = "=0.18.2"
crossbeam-channel = "=0.5.17"
libc = "=0.2.191"
pocketstation = { version = "=1.1.16", default-features = false }
rusqlite = { version = "=0.41.1", features = ["bundled"] }
serde = { version = "=1.0.229", features = ["derive"] }
serde_json = "=1.0.154"
serde_yaml = "=0.9.34"
thiserror = "=2.0.21"
tracing = "=0.1.44"
walkdir = "=2.5.0"

[dev-dependencies]
tempfile = "3"
