[package]
name = "rusty_workers_proxy"
version = "0.1.0"
edition = "2021"
publish = false

[dependencies]
anyhow = "1"
arc-swap = "1"
futures = "0.3"
hyper = { version = "0.14", features = ["full"] }
reqwest = { version = "0.11", default-features = false }
serde = { version = "1", features = ["derive"] }
thiserror = "1"
tokio = { version = "1", features = ["full"] }
toml = "0.5"
