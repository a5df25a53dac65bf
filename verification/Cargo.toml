[package]
name = "asciicast-rs"
version = "0.2.0"
edition = "2021"
publish = false

[dependencies]
serde = { version = "=1.0.229", features = ["derive"] }
serde_json = "=1.0.154"
ruzstd = "=0.8.3"
thiserror = "=2.0.21"
chrono = { version = "=0.4.45", default-features = false, features = ["std"] }
