[package]
name = "clearclip"
version = "0.1.0"
edition = "2021"
publish = false

[dependencies]
serde = { version = "1", features = ["derive"] }
serde_json = "1"
semver = "1"
tokio = { version = "1", features = ["fs", "sync", "time", "rt", "rt-multi-thread", "macros", "io-util"] }
tokio-util = "0.7"
reqwest = { version = "0.12", default-features = false, features = ["json", "multipart", "stream", "rustls-tls"] }
futures-util = "0.3"
uuid = { version = "1", features = ["v4"] }
thiserror = "2"
keyring = "*"
keyring-core = "*"
