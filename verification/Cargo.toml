[package]
name = "pyrite_network"
version = "0.1.0"
edition = "2021"
publish = false

[dependencies]
anyhow = "*"
log = "*"
pretty_env_logger = "*"
serde = { version = "*", features = ["derive"] }
thiserror = "*"
toml = "*"
wasmtime = "=48.0.5"
wasmtime-wasi = "=48.0.5"
