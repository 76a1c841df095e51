[package]
name = "rusty-tuber"
version = "0.1.0"
edition = "2021"
publish = false

[dependencies]
anyhow = "=1.0.104"
axum = { version = "=0.7.9", features = ["ws"] }
clap = { version = "=4.6.7", features = ["derive"] }
cpal = "=0.15.3"
futures-util = "=0.3.34"
image = { version = "=0.25.10", default-features = false, features = ["png"] }
libc = "=0.2.191"
mime_guess = "=2.0.5"
rand = "=0.8.8"
rust-embed = "=8.13.0"
serde = { version = "=1.0.229", features = ["derive"] }
serde_json = "=1.0.154"
tokio = { version = "=1.54.1", features = ["full"] }
toml = "=0.8.23"
tower-http = { version = "=0.6.11", features = ["fs", "set-header", "trace"] }
tracing = "=0.1.44"
tracing-subscriber = { version = "=0.3.23", features = ["env-filter"] }
wide = "=0.7.33"
