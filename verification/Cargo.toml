[package]
name = "lmb_engine_simulator"
version = "0.1.0"
edition = "2021"
publish = false

[dependencies]
ansi_term = "0.12"
dyn-clone = "1"
ndarray = "0.16"
serde = { version = "1", features = ["derive"] }
serde_json = "1"
