[package]
name = "ironrdp-agent"
version = "0.1.0"
edition = "2021"
publish = false

[dependencies]
anyhow = "1"
clap = { version = "4", features = ["derive"] }
ironrdp-cfg = "=0.1.0"
ironrdp-client = { version = "=0.1.0", features = ["rustls", "gateway"] }
ironrdp-core = "=0.2.1"
ironrdp-input = "0.7"
ironrdp-pdu = "=0.9.0"
ironrdp-propertyset = "=0.1.1"
ironrdp-rdpfile = "=0.1.1"
tokio = { version = "1", features = ["full"] }
tracing = "0.1"
tracing-subscriber = { version = "0.3", features = ["env-filter"] }
whoami = "=2.1.3"
