[package]
name = "ironclaw_voice"
version = "0.1.0"
edition = "2021"
publish = false

[dependencies]
regex = "1"
serde = { version = "1", features = ["derive"] }
serde_json = "1"
toml = "0.8"
thiserror = "1"
tracing = "0.1"
async-trait = "0.1"
tokio = { version = "1", features = ["sync", "rt", "rt-multi-thread", "macros", "time"] }
tokio-stream = "0.1"
reqwest = { version = "0.12", default-features = false, features = ["json", "multipart", "rustls-tls"] }
serenity = { version = "0.12", default-features = false, features = ["client", "gateway", "model", "cache", "voice", "rustls_backend"] }
songbird = { version = "0.4", features = ["receive"] }
