[package]
name = "match_three"
version = "0.1.0"
edition = "2021"
publish = false

[dependencies]
rand = "0.8"
bevy = { version = "0.15", default-features = false, features = ["bevy_ui", "bevy_state", "default_font"] }
