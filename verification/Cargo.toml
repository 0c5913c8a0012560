[package]
name = "rust_webapp"
version = "0.1.0"
edition = "2021"
publish = false

[dependencies]
uuid = { version = "=1.29.0", features = ["v4"] }
itertools = "=0.15.0"
regex = "=1.13.1"
tokio = { version = "=1.54.1", features = ["macros", "rt-multi-thread", "sync"] }
warp = { version = "=0.4.3", features = ["server", "websocket"] }
warp-reverse-proxy = { version = "=2.0.0", default-features = false }
futures = "=0.3.34"
tokio-stream = "=0.1.19"
serde = { version = "=1.0.229", features = ["derive"] }
