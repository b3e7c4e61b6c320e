[package]
name = "velocity-engine"
version = "0.1.0"
edition = "2021"
publish = false

[dependencies]
serde = { version = "1", features = ["derive"] }
serde_json = "1"
toml = "0.8"
zbus = "4"
tokio = { version = "1", features = ["full"] }
notify = "6"
clap = { version = "4", features = ["derive"] }
signal-hook = "0.3"
thiserror = "1"
tracing = "0.1"
tracing-subscriber = { version = "0.3", features = ["env-filter", "json"] }
glob = "0.3"
libc = "0.2"
async-trait = "0.1"
