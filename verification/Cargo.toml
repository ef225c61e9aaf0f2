[package]
name = "telemetry_filter"
version = "0.1.0"
edition = "2021"
publish = false

[dependencies]
proxy-wasm = "*"
log = "*"

[dev-dependencies]
serde_json = "*"
