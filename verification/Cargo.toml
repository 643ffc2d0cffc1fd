[package]
name = "ds_free_api"
version = "0.1.0"
edition = "2021"
publish = false

[dependencies]
serde = { version = "=1.0.229", features = ["derive"] }
serde_json = "=1.0.154"
toml = "=1.1.8"
thiserror = "=2.0.21"
log = "=0.4.35"
bytes = "=1.12.1"
futures = "=0.3.34"
http = "=1.5.0"
