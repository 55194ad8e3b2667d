[package]
name = "ksproto"
version = "0.1.0"
edition = "2021"
publish = false

[dependencies]
bytes = "1"
ed25519-dalek = "2"
rand = "*"
anyhow = "1"
tokio = { version = "1", features = ["full"] }
quinn = { version = "0.11", default-features = false, features = ["runtime-tokio", "rustls-ring", "log"] }
rustls = { version = "0.23", default-features = false, features = ["ring", "std", "logging", "tls12"] }
rcgen = "0.13"
rustls-pemfile = "2"
clap = { version = "4", features = ["derive"] }
dotenvy = "0.15"
tracing = "0.1"
tracing-subscriber = "0.3"
serde = { version = "1", features = ["derive"] }
serde_json = "1"
