[package]
name = "solana_balance_watcher"
version = "0.1.0"
edition = "2021"
publish = false

[dependencies]
anyhow = "1"
axum = "0.6"
bs58 = "0.4"
clap = { version = "4", features = ["derive", "env"] }
futures = "0.3"
log = "0.4"
once_cell = "1"
prometheus = { version = "0.13", default-features = false }
solana-sdk = "1.18"
tokio = { version = "1", features = ["macros", "rt-multi-thread", "time"] }
tracing = "0.1"
tracing-log = "0.2"
tracing-subscriber = "0.3"
