[package]
name = "viddy"
version = "0.1.0"
edition = "2021"
publish = false

[dependencies]
dissimilar = "*"
unicode-width = "*"
rusqlite = "*"
chrono = "*"
tokio = { version = "*", features = ["process", "time", "sync", "rt-multi-thread", "macros"] }
clap = { version = "*", features = ["derive"] }
crossterm = "*"
serde = { version = "*", features = ["derive"] }
toml = "*"
humantime = "*"
