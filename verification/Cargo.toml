[package]
name = "agentsync"
version = "0.1.0"
edition = "2021"
publish = false

[dependencies]
strsim = "*"
clap = { version = "*", features = ["derive"] }
serde = { version = "*", features = ["derive"] }
serde_json = "*"
glob = "*"
tempfile = "*"
