[package]
name = "unique"
version = "0.1.0"
edition = "2021"
publish = false

[dependencies]
smallvec = "1"
regex = "1"
httparse = "1"
ring = "0.17"
crossbeam = "0.8"
bytes = "1"
serde = { version = "1", features = ["derive"] }
serde_json = "1"
flate2 = "1"
tokio = { version = "1", features = ["full"] }
walkdir = "2"
rustls = { version = "0.23", default-features = false, features = ["ring", "std", "logging", "tls12"] }
rustls-pemfile = "2"
jsonwebtoken = "9"
parking_lot = "0.12"
dashmap = "6"
once_cell = "1"
tracing = "0.1"
tracing-subscriber = { version = "0.3", features = ["env-filter"] }
thiserror = "1"
notify = "6"
socket2 = "0.5"
async-trait = "0.1"
