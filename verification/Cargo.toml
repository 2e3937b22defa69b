[package]
name = "my"
version = "0.1.0"
edition = "2021"
publish = false

[dependencies]
anyhow = "1"
chrono = "=0.4.45"
clap = { version = "4", default-features = false, features = ["derive", "std", "help", "usage", "error-context"] }
futures-util = "=0.3.34"
indexmap = { version = "2", features = ["serde"] }
indicatif = "=0.18.6"
inquire = { version = "0.9", default-features = false, features = ["console"] }
keyring = "3"
matrix-sdk = { version = "=0.16.1", default-features = false, features = ["sqlite", "rustls-tls"] }
rand = "0.8"
rusqlite = { version = "=0.37.0", features = ["bundled"] }
serde = { version = "1", features = ["derive"] }
serde_json = "1"
tokio = { version = "1", features = ["rt-multi-thread", "macros", "time"] }
tracing = "0.1"
tracing-subscriber = { version = "0.3", default-features = false, features = ["fmt", "env-filter", "std"] }
url = "2"
