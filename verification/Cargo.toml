[package]
name = "component-script-rhai"
version = "0.1.0"
edition = "2021"
publish = false

[dependencies]
serde = { version = "1", features = ["derive"] }
serde_json = "1"
rhai = "*"
greentic-types = "*"
greentic-interfaces-guest = "*"
blake3 = "1"
