[package]
name = "birdwatcher_rs"
version = "0.1.0"
edition = "2021"
publish = false

[dependencies]
toml = "*"
tokio = { version = "*", features = ["macros", "rt-multi-thread", "process", "time", "sync", "net", "io-util"] }
clap = { version = "*", features = ["derive"] }
anyhow = "*"
color-eyre = "*"
fs-err = "*"
ratatui = "*"
futures = "*"
futures-timer = "*"
