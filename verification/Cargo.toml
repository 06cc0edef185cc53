[package]
name = "gobgp_sync"
version = "0.1.0"
edition = "2021"
publish = false

[dependencies]
anyhow = "=1.0.104"
chrono = "=0.4.45"
clap = { version = "=4.6.7", features = ["derive"] }
hickory-resolver = "=0.26.3"
log = "=0.4.35"
prost = "=0.14.4"
reqwest = { version = "=0.13.5", default-features = false, features = ["rustls-no-provider", "http2", "charset"] }
rustls = { version = "0.23", default-features = false, features = ["ring", "std", "tls12", "logging"] }
serde = { version = "=1.0.229", features = ["derive"] }
tokio = { version = "=1.54.1", features = ["full"] }
toml = "=1.1.8"
tonic = "=0.14.9"
tonic-prost = "=0.14.9"
