[package]
name = "mc_http"
version = "0.1.0"
edition = "2021"
publish = false

[dependencies]
anyhow = "=1.0.104"
arc-swap = "=1.9.3"
clap = { version = "=4.6.7", features = ["derive"] }
io-uring = "=0.7.15"
libc = "=0.2.191"
notify = "=8.2.1"
serde = { version = "=1.0.229", features = ["derive", "rc"] }
toml = "=1.1.8"
tracing = "=0.1.44"
tracing-subscriber = { version = "=0.3.23", features = ["env-filter"] }
