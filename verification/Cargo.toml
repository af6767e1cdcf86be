[package]
name = "link2lan"
version = "0.1.0"
edition = "2021"
publish = false

[dependencies]
rand = "=0.10.3"
sha2 = "=0.10.9"
chacha20poly1305 = "=0.10.1"
serde = { version = "=1.0.229", features = ["derive"] }
serde_json = "=1.0.154"
tokio = { version = "=1.54.1", features = ["full"] }
clap = { version = "=4.6.7", features = ["derive"] }
reqwest = { version = "=0.12.28", default-features = false, features = ["rustls-tls"] }
reqwest-websocket = "0.5"
futures-util = "=0.3.34"
stunclient = "=0.4.2"
