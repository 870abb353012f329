[package]
name = "leg_creature"
version = "0.1.0"
edition = "2021"
publish = false

[dependencies]
itertools = "=0.13.0"
bevy = { version = "0.14", default-features = false }
