[package]
name = "makepad_analyzer"
version = "0.1.0"
edition = "2021"
publish = false

[dependencies]
dashmap = "5.5"
url = "2"
lsp-types = "0.94"
tower-lsp = "0.20"
tokio = { version = "1", features = ["full"] }
tempfile = "3"
serde = { version = "1", features = ["derive"] }
serde_json = "1"
thiserror = "1"
tracing = "0.1"
tracing-subscriber = "0.3"
clap = { version = "4", features = ["derive"] }
parking_lot = "0.12"
