[package]
name = "poke_http"
version = "0.1.0"
edition = "2021"
publish = false

[dependencies]
anyhow = "*"
clap = { version = "*", features = ["derive"] }
crossterm = "*"
ratatui = "*"
reqwest = { version = "*", default-features = false }
serde_json = "*"
tokio = { version = "*", features = ["macros", "rt-multi-thread"] }
