[package]
name = "fuel_core"
version = "0.1.0"
edition = "2021"
publish = false

[dependencies]
half = "2"
hf-hub = { version = "0.4", default-features = false, features = ["ureq"] }
safetensors = "0.6"
