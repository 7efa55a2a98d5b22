[package]
name = "jmri_throttle_rs"
version = "0.1.0"
edition = "2021"
publish = false

[dependencies]
tokio = { version = "=1.53.2", features = ["sync", "rt-multi-thread", "macros", "net", "time", "io-util"] }
futures = "=0.3.34"
tokio-stream = "=0.1.19"
tokio-util = { version = "=0.7.19", features = ["codec"] }
warp = { version = "=0.4.3", features = ["server", "websocket"] }
serde = { version = "=1.0.229", features = ["derive"] }
serde_json = "=1.0.151"
log = "=0.4.34"
pretty_env_logger = "=0.5.0"
once_cell = "=1.21.4"
uuid = { version = "=1.27.0", features = ["v4"] }
