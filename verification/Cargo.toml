[package]
name = "clipforge"
version = "0.1.0"
edition = "2021"
publish = false

[dependencies]
regex = "=1.13.1"
trash = "=5.2.9"
serde = { version = "=1.0.229", features = ["derive"] }
serde_json = "=1.0.154"
obws = { version = "=0.14.0", features = ["events"] }
tokio = { version = "=1.54.1", features = ["full"] }
futures-util = "=0.3.34"
reqwest = { version = "=0.12.28", default-features = false, features = ["json", "rustls-tls"] }
notify = "=8.2.1"
