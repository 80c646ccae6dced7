[package]
name = "mamba3"
version = "0.1.0"
edition = "2021"
publish = false

[dependencies]
cubecl = "0.10"
half = "2"
serde = { version = "1", features = ["derive"] }
serde_json = "1"
thiserror = "2"
