[package]
name = "brief"
version = "0.1.0"
edition = "2021"
publish = false

[dependencies]
anyhow = "=1.0.104"
thiserror = "=1.0.69"
serde = { version = "=1.0.229", features = ["derive"] }
serde_json = "=1.0.154"
toml = "=0.8.23"
once_cell = "=1.21.4"
parking_lot = "=0.12.5"
notify = "=6.1.1"
num = "0.4"

[dev-dependencies]
tempfile = "=3.27.0"
