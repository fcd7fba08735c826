[package]
name = "acserver"
version = "0.1.0"
edition = "2021"
publish = false

[dependencies]
bytes = "1"
rand = "0.8"
tokio = { version = "1", features = ["rt-multi-thread", "net", "io-util", "time", "macros"] }
hyper = { version = "0.14", features = ["server", "http1", "tcp"] }
flume = "0.11"
serde = { version = "1", features = ["derive"] }
serde_json = "1"
toml = "0.8"
log = "0.4"
env_logger = "0.10"
urlencoding = "2"
anyhow = "1"

[dev-dependencies]
md5 = "0.7"
