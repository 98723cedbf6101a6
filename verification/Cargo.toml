[package]
name = "crabble"
version = "0.1.0"
edition = "2021"
publish = false

[dependencies]
rand = "0.8"
ratatui = "*"
crossterm = "*"
color-eyre = "*"
axum = "*"
tokio = { version = "1", features = ["macros", "rt-multi-thread", "net"] }
tracing-subscriber = "*"
uuid = { version = "1", features = ["v4"] }
