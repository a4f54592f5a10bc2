[package]
name = "fey"
version = "0.1.0"
edition = "2021"
publish = false

[dependencies]
unicode-width = "=0.2.3"
rig-core = { version = "=0.40.0", features = ["derive"] }
tokio = { version = "=1.54.1", features = ["rt", "rt-multi-thread", "sync"] }
ratatui = "=0.30.2"
clap = { version = "=4.6.7", features = ["derive", "env"] }
anyhow = "=1.0.104"
thiserror = "=2.0.21"
serde = { version = "=1.0.229", features = ["derive"] }
serde_json = "=1.0.154"
