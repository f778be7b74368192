[package]
name = "csv2json"
version = "0.1.0"
edition = "2021"
publish = false

[dependencies]
chrono = "0.4"

[dev-dependencies]
csv = "1"
serde_json = { version = "1", features = ["preserve_order"] }
