[package]
name = "chess_rules"
version = "0.1.0"
edition = "2021"
publish = false

[dependencies]
bevy = { version = "0.17", default-features = false, features = ["std", "bevy_state", "bevy_sprite", "bevy_window", "bevy_asset", "bevy_render"] }
