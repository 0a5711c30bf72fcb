[package]
name = "multiplayer_core"
version = "0.1.0"
edition = "2021"
publish = false

[dependencies]
spacetimedb = { version = "=1.12.0", features = ["unstable"] }
