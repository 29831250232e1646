[package]
name = "showcase"
version = "0.1.0"
edition = "2021"
publish = false

[dependencies]
png = "=0.18.1"
rand = "=0.9.5"
http = "=1.5.0"
serde = { version = "=1.0.229", features = ["derive"] }
axum = "=0.8.9"
tokio = { version = "=1.54.1", features = ["macros", "rt-multi-thread", "net", "time", "sync", "io-std"] }
tower = { version = "=0.5.3", features = ["util", "buffer", "limit", "balance", "load", "discover"] }
tower-http = { version = "=0.6.11", features = ["set-header", "util"] }
reqwest = { version = "=0.13.5", default-features = false, features = ["json"] }
tower-http-client = "=0.6.1"
tower-reqwest = "=0.6.1"
eyre = "=0.6.14"
log = { version = "=0.4.35", features = ["kv", "kv_serde"] }
structured-logger = "=1.0.5"
env_logger = "=0.11.11"
context-logger = "=0.2.1"
headers = "=0.4.2"
futures-util = "=0.3.34"
