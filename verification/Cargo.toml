[package]
name = "fadewire_core"
version = "0.1.0"
edition = "2021"
publish = false

[dependencies]
anyhow = "1"
serde = { version = "1", features = ["derive"] }
toml = "0.8"
hidapi = "2"
libpulse-binding = "2"
zbus = "5"
