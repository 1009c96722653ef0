[package]
name = "squiggle"
version = "0.1.0"
edition = "2021"
publish = false

[dependencies]
bevy = { version = "=0.19.1", default-features = false }
bevy_egui = { version = "=0.41.1", default-features = false }
rand = "=0.9.5"
