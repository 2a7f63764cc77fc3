[package]
name = "bevy_atomic_save"
version = "0.1.0"
edition = "2021"
publish = false

[dependencies]
bevy = { version = "0.10", default-features = false, features = ["bevy_scene"] }
ron = "0.8"
serde = "1"
