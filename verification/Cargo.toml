[package]
name = "zenoh_net"
version = "0.1.0"
edition = "2021"
publish = false

[dependencies]
hex = "0.4"
uuid = { version = "1", features = ["v4"] }
uhlc = "*"
rustls-pemfile = "1"
serde = { version = "1", features = ["derive"] }
serde_json = "1"
log = "0.4"
async-std = "1"
async-trait = "0.1"
pin-project-lite = "0.2"
tokio = { version = "1", features = ["net", "io-util", "rt"] }
tokio-rustls = "0.23"
webpki-roots = "0.22"
