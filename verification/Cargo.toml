[package]
name = "hello_world_plugin"
version = "1.0.0"
edition = "2021"
publish = false

[dependencies]
async-trait = "0.1"
chrono = { version = "0.4", default-features = false, features = ["clock", "std"] }
parking_lot = "0.12"
semver = "1"
serde = { version = "1", features = ["derive"] }
serde_json = "1"
tracing = "0.1"
