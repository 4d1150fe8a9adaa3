[package]
name = "kcptun"
version = "0.1.0"
edition = "2021"
publish = false

[dependencies]
kcp = "0.4"
bytes = "0.4"
env_logger = "0.6"
futures = "0.1"
log = "0.4"
rand = "0.6"
time = "0.1"
tokio = "0.1"
tokio-codec = "0.1"
tokio-io = "0.1"
udpsocket2 = "0.0.1"
yamux = "0.2"
