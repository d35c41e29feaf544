[package]
name = "anycaster"
version = "0.1.0"
edition = "2021"
publish = false

[dependencies]
anyhow = "1"
clap = { version = "4", features = ["derive"] }
futures-util = "0.3"
hickory-resolver = "0.25"
jiff = "0.2"
libc = "0.2"
reqwest = { version = "0.12", default-features = false, features = ["rustls-tls"] }
rtnetlink = "*"
serde = { version = "1", features = ["derive"] }
tokio = { version = "1", features = ["full"] }
toml = "0.8"
tracing = "0.1"
tracing-subscriber = { version = "0.3", features = ["env-filter"] }
