[package]
name = "monarch"
version = "0.1.0"
edition = "2021"
publish = false

[dependencies]
anyhow = "=1.0.104"
base64 = "=0.22.1"
bincode = "=1.3.3"
humantime = "=2.4.0"
libc = "=0.2.191"
rand = "=0.8.8"
regex = "=1.13.1"
rustls-pemfile = "=1.0.4"
serde = { version = "=1.0.229", features = ["derive"] }
serde_json = "=1.0.154"
tempfile = "=3.27.0"
tokio = { version = "=1.54.1", features = ["full"] }
tokio-rustls = "=0.26.6"
