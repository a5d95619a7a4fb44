[package]
name = "dublagem"
version = "0.1.0"
edition = "2021"
publish = false

[dependencies]
sha2 = "=0.10.9"
serde = { version = "=1.0.229", features = ["derive"] }
serde_json = "=1.0.154"
hound = "=3.5.1"
chrono = "=0.4.45"
uuid = { version = "=1.29.0", features = ["v4"] }
thiserror = "=2.0.21"
symphonia = "=0.5.5"
tokio = { version = "=1.54.1", features = ["sync", "rt", "macros", "time"] }
tokio-util = "=0.7.20"
async-trait = "=0.1.92"
reqwest = { version = "0.12", default-features = false, features = ["json", "rustls-tls"] }
