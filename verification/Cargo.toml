[package]
name = "wgfw"
version = "0.1.0"
edition = "2021"
publish = false

[dependencies]
orion = "=0.18.0"
uuid = { version = "=1.27.0", features = ["v4", "serde"] }
serde_json = "=1.0.151"
serde = { version = "=1.0.229", features = ["derive"] }
tokio = { version = "=1.53.2", features = ["rt-multi-thread", "macros", "sync", "time"] }
warp = { version = "=0.4.3", features = ["server", "websocket"] }
futures-util = "=0.3.34"
log = "=0.4.34"
pretty_env_logger = "=0.5.0"
