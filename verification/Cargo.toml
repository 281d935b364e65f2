[package]
name = "boule"
version = "0.1.0"
edition = "2021"
publish = false

[dependencies]
egui = "0.27"
env_logger = "0.10"
log = "0.4"
rand = "0.8"
serde = { version = "1", features = ["derive"] }
wasm-bindgen-futures = "0.4"
