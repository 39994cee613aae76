[package]
name = "geode_bindings"
version = "0.1.0"
edition = "2021"
publish = false

[dependencies]
lazy-regex = "3"
serde_json = "1"
clap = { version = "4", features = ["derive"] }
