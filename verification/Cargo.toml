[package]
name = "tower_defense"
version = "0.1.0"
edition = "2021"
publish = false

[dependencies]
bevy = { version = "=0.17.3", default-features = false, features = ["std", "bevy_color", "bevy_asset", "bevy_mesh", "bevy_camera", "bevy_render", "bevy_core_pipeline", "bevy_sprite", "bevy_sprite_render", "bevy_text", "bevy_ui", "bevy_ui_render", "bevy_window", "default_font"] }
rand = "=0.9.5"
