[package]
name = "batch_translator"
version = "0.1.0"
edition = "2021"
publish = false

[dependencies]
regex = "*"
tiktoken-rs = "*"
serde = { version = "*", features = ["derive"] }
serde_json = "*"
toml = "*"
clap = { version = "*", features = ["derive"] }
anyhow = "*"
isolang = "*"
reqwest = { version = "*", default-features = false }
tokio = { version = "*", features = ["rt-multi-thread", "macros", "signal", "sync", "time"] }
async-trait = "*"
