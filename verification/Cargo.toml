[package]
name = "pathfinder"
version = "0.1.0"
edition = "2021"
publish = false

[dependencies]
anyhow = "=1.0.104"
backon = "=1.6.0"
bincode = "=2.0.1"
futures = "=0.3.34"
glob = "=0.3.4"
goose = { version = "=0.19.0", default-features = false, features = ["rustls-tls"] }
libc = "=0.2.191"
metrics = "*"
r2d2 = "=0.8.10"
r2d2_sqlite = { version = "=0.35.0", features = ["bundled"] }
rusqlite = { version = "=0.40.2", features = ["bundled", "functions"] }
rust-rocksdb = { version = "=0.54.0", default-features = false }
serde = { version = "=1.0.229", features = ["derive"] }
serde_json = "=1.0.154"
serde_with = "=3.24.0"
tempfile = "=3.27.0"
tokio = { version = "=1.54.1", features = ["macros", "rt-multi-thread", "sync", "time"] }
tracing = "=0.1.44"
