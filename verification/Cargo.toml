[package]
name = "cake_server"
version = "0.1.0"
edition = "2021"
publish = false

[dependencies]
hyper = { version = "0.14", features = ["full"] }
tokio = { version = "1", features = ["full"] }
tokio-tungstenite = "0.20"
futures-channel = "0.3"
futures-util = { version = "0.3", features = ["sink"] }
sysinfo = "0.29"
url = "2"
