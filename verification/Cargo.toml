[package]
name = "nt"
version = "0.1.0"
edition = "2021"
publish = false

[dependencies]
bytes = "=1.12.1"
multimap = { version = "=0.10.1", default-features = false }
rmpv = "=1.3.1"
tokio = { version = "=1.54.1", features = ["net", "rt", "rt-multi-thread", "time", "sync", "macros", "io-util"] }
tokio-util = { version = "=0.7.20", features = ["codec"] }
futures = "=0.3.34"
tokio-tungstenite = "=0.30.0"
url = "=2.5.8"
thiserror = "=2.0.21"
serde = { version = "=1.0.229", features = ["derive"] }
serde_json = "=1.0.154"
rmp-serde = "=1.3.1"
log = "=0.4.34"
rand = "=0.10.3"
