[package]
name = "edgesteer"
version = "0.3.0"
edition = "2021"
publish = false

[dependencies]
anyhow = "=1.0.104"
arc-swap = "=1.9.3"
clap = { version = "=4.6.7", features = ["derive"] }
flate2 = "=1.1.10"
hickory-proto = "=0.25.2"
ipnet = "=2.12.2"
notify = "=8.2.1"
rand = "=0.9.5"
regex = "=1.13.1"
reqwest = { version = "=0.12.28", default-features = false, features = ["rustls-tls"] }
rustls = { version = "=0.23.46", default-features = false, features = ["std", "ring", "tls12", "logging"] }
serde = { version = "=1.0.229", features = ["derive"] }
serde_json = "=1.0.154"
tokio = { version = "=1.54.1", features = ["full"] }
tokio-rustls = { version = "=0.26.6", default-features = false, features = ["ring", "tls12", "logging"] }
tracing = "=0.1.44"
tracing-subscriber = { version = "=0.3.23", features = ["env-filter"] }
webpki-roots = "=1.0.10"
