[package]
name = "tokio-proxy-protocol"
version = "0.1.0"
edition = "2021"
publish = false

[dependencies]
bytes = "0.5"
log = "0.4"
pin-project = "0.4"
thiserror = "1.0"
tokio = { version = "0.2", features = ["io-util", "stream", "tcp", "dns"] }
tokio-util = { version = "0.3", features = ["codec"] }
