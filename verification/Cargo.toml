[package]
name = "aklog_server"
version = "0.1.0"
edition = "2021"
publish = false

[dependencies]
regex = "1"
serde = { version = "1", features = ["derive"] }
serde_derive = "1"
serde_json = "1"
serde_regex = "1"
toml = "0.8"
chrono = { version = "0.4", features = ["serde"] }
clap = "2"
log = "0.4"
simplelog = "0.12"
error-chain = { version = "0.12", default-features = false }
getset = "0.1"
rocket = { version = "0.5", features = ["json"] }
