[package]
name = "keysynth"
version = "0.1.0"
edition = "2021"
publish = false

[dependencies]
device_query = "*"
rodio = { version = "0.17", default-features = false }
