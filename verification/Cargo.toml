[package]
name = "rubberdux"
version = "0.1.0"
edition = "2021"
publish = false
rust-version = "1.95"

[dependencies]
axum = { version = "=0.8.9", features = ["ws"] }
base64 = "=0.23.1"
chrono = "=0.4.45"
dirs = "=7.0.0"
dotenvy = "=0.15.7"
env_logger = "=0.11.11"
futures = "*"
log = "=0.4.35"
pulldown-cmark = "=0.13.6"
reqwest = { version = "0.12", default-features = false, features = ["json", "rustls-tls"] }
serde = { version = "=1.0.229", features = ["derive"] }
serde_json = "=1.0.154"
serde_yaml = "=0.9.34"
telegram-markdown-v2 = "=0.2.2"
takecell = "=0.1.1"
teloxide = { version = "*", default-features = false, features = ["rustls", "ctrlc_handler"] }
tempfile = "*"
thiserror = "=2.0.21"
tokio = { version = "=1.54.1", features = ["full"] }
tokio-util = "*"
