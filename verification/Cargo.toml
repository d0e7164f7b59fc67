[package]
name = "pingme"
version = "0.1.0"
edition = "2021"
publish = false

[dependencies]
anyhow = "=1.0.104"
chrono = "=0.4.45"
clap = "=4.6.7"
crossterm = "=0.28.1"
ratatui = "=0.28.1"
reqwest = { version = "=0.13.5", default-features = false }
serde = { version = "=1.0.229", features = ["derive"] }
tokio = { version = "=1.53.2", features = ["rt", "rt-multi-thread", "macros", "sync", "time"] }
toml = "=1.1.7"
tui-textarea = "=0.6.1"
uuid = { version = "=1.27.0", features = ["v4"] }
