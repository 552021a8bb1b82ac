[package]
name = "cps"
version = "0.1.0"
edition = "2021"
publish = false

[dependencies]
anyhow = "1"
bcrypt = "0.15"
bincode = "1"
chrono = "0.4"
http-body-util = "0.1"
hyper = { version = "1", features = ["http1", "http2", "server"] }
hyper-util = { version = "0.1", features = ["http1", "http2", "server", "server-auto", "tokio"] }
rand = "0.8"
serde = { version = "1", features = ["derive"] }
snap = "1"
tokio = { version = "1", features = ["full"] }
toml = "0.8"
