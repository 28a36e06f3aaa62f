[package]
name = "fedimint_amm"
version = "0.1.0"
edition = "2021"
publish = false

[dependencies]
anyhow = "1"
bitcoin_hashes = "=0.14.101"
clap = { version = "4", features = ["derive", "env"] }
fedimint-core = { version = "=0.8.2", default-features = false }
fedimint-derive-secret = { version = "=0.8.2", default-features = false }
fedimint-logging = { version = "=0.8.2", default-features = false }
rand = "=0.8.8"
reqwest = { version = "0.12", default-features = false, features = ["rustls-tls"] }
serde = { version = "1", features = ["derive"] }
serde_json = "=1.0.154"
thiserror = "1"
tokio = { version = "1", features = ["full"] }
tracing = "0.1"
