[package]
name = "germ"
version = "0.1.0"
edition = "2021"
publish = false

[dependencies]
anyhow = "=1.0.104"
rustls = { version = "=0.21.12", features = ["dangerous_configuration"] }
tokio = { version = "=1.53.2", features = ["net", "io-util"] }
tokio-rustls = "=0.24.1"
url = "=2.5.8"
