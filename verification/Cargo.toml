[package]
name = "manaline"
version = "0.1.0"
edition = "2021"
publish = false

[dependencies]
rand = "=0.8.8"
rand_chacha = "=0.3.1"
serde = { version = "=1.0.229", features = ["derive"] }
serde_json = "=1.0.154"
ron = "=0.8.1"
thiserror = "=1.0.69"
anyhow = "=1.0.104"
libc = "=0.2.191"
tokio = { version = "=1.54.1", features = ["full"] }
tokio-util = "=0.7.20"
axum = "=0.8.9"
schemars = "=1.2.3"
tracing = "=0.1.44"
rmcp = { version = "=3.8.0", features = ["server", "macros", "transport-io", "transport-streamable-http-server"] }
