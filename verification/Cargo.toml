[package]
name = "aura_compression"
version = "0.1.0"
edition = "2021"
publish = false

[dependencies]
brotli = "*"
log = "0.4"
napi = "2"
napi-derive = "2"
serde = { version = "1", features = ["derive"] }
serde_json = "1"
thiserror = "1"
