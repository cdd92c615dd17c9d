[package]
name = "ocex_replay"
version = "0.1.0"
edition = "2021"
publish = false

[dependencies]
sp-core = "*"
serde = { version = "*", features = ["derive"] }
serde_json = "*"
