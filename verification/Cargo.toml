[package]
name = "nbs"
version = "0.1.0"
edition = "2021"
publish = false

[dependencies]
pulldown-cmark = { version = "=0.10.3", default-features = false, features = ["html"] }
rand = "=0.8.8"
regex = "=1.13.1"
html-escape = "=0.2.15"
serde = { version = "=1.0.229", features = ["derive"] }
serde_json = "=1.0.154"
serde_yaml = "=0.9.34"
clap = { version = "=4.6.7", features = ["derive"] }
handlebars = "=5.1.2"
chrono = { version = "=0.4.45", features = ["serde"] }
log = "=0.4.34"
env_logger = "=0.11.11"
thiserror = "=1.0.69"
anyhow = "=1.0.104"
git2 = { version = "=0.21.0", default-features = false }
nym = "=0.1.0"
futures = "=0.3.34"
tokio = { version = "=1.54.1", features = ["rt", "macros"] }
async-lock = "=3.4.2"
async-stream = "=0.3.6"
