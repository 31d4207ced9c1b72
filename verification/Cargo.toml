[package]
name = "cr_arena"
version = "0.1.0"
edition = "2021"
publish = false

[dependencies]
bevy = { version = "=0.19.1", default-features = false, features = ["std", "bevy_color", "bevy_gizmos"] }
bincode = "=1.3.3"
pyo3 = { version = "=0.29.3", features = ["abi3-py38", "extension-module"] }
serde = { version = "=1.0.229", features = ["derive"] }
serde_json = "=1.0.154"
