[package]
name = "proxy_tray"
version = "0.1.0"
edition = "2021"
publish = false

[dependencies]
log = "0.4"
serde = { version = "1", features = ["derive"] }
simd-json = "*"
tokio = { version = "1", features = ["rt", "sync", "time"] }
