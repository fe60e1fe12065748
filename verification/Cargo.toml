[package]
name = "ceky"
version = "0.1.0"
edition = "2021"
publish = false

[dependencies]
anyhow = "1"
axum = { version = "0.7", features = ["ws"] }
bytes = "1"
chacha20poly1305 = "0.10"
chrono = "0.4"
clap = { version = "4", features = ["derive"] }
crc32c = "0.6"
crossbeam = "0.8"
crossterm = "0.28"
dashmap = "6"
ed25519-dalek = { version = "2", features = ["rand_core"] }
futures = "0.3"
getrandom = "0.3"
hex = "0.4"
memmap2 = "0.9"
rand = "0.8"
ratatui = "0.29"
redb = "2"
serde = { version = "1", features = ["derive"] }
serde_json = "1"
sha2 = "0.10"
thiserror = "1"
tokio = { version = "1", features = ["full"] }
tokio-util = { version = "0.7", features = ["codec"] }
toml = "0.8"
tracing = "0.1"
tracing-core = "0.1"
tracing-subscriber = { version = "0.3", features = ["env-filter"] }
x25519-dalek = { version = "2", features = ["static_secrets"] }
zeroize = "1"
