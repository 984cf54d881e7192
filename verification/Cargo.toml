[package]
name = "privaxy"
version = "0.1.0"
edition = "2021"
publish = false

[dependencies]
adblock = "=0.9.8"
base64 = "=0.21.7"
chrono = "=0.4.45"
crossbeam-channel = "=0.5.17"
dashmap = "=5.5.3"
futures = "=0.3.34"
futures-util = "=0.3.34"
http = "=0.2.12"
hyper = { version = "=0.14.32", features = ["full"] }
hyper-rustls = "=0.23.2"
log = "=0.4.34"
openssl = "=0.10.81"
parking_lot = "=0.12.5"
reqwest = { version = "=0.11.27", default-features = false, features = ["rustls-tls", "stream"] }
rmp = "=0.8.10"
rustls = "=0.20.9"
serde = { version = "=1.0.229", features = ["derive"] }
serde_json = "=1.0.151"
sysinfo = "=0.29.11"
tokio = { version = "=1.53.2", features = ["full"] }
tokio-rustls = "=0.23.4"
warp = "=0.3.7"
