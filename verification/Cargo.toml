[package]
name = "channel_relay"
version = "0.1.0"
edition = "2021"
publish = false

[dependencies]
anyhow = "1"
console = "0.15"
futures = "0.3"
regex = "1"
serde_json = "1"
serenity = { version = "0.10", features = ["unstable_discord_api"] }
sqlx = { version = "0.5", features = ["runtime-tokio-rustls", "sqlite"] }
sublime_fuzzy = "0.7"
tokio = { version = "1", features = ["macros", "rt-multi-thread", "fs", "sync"] }
