[package]
name = "furl_core"
version = "0.1.0"
edition = "2021"
publish = false

[dependencies]
reqwest = { version = "0.12", features = ["stream"] }
tokio = { version = "1", features = ["full"] }
futures-util = "0.3"
indicatif = "0.17"
clap = { version = "4", features = ["derive"] }
regex = "1"
