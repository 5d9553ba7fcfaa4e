[package]
name = "arena_combat"
version = "0.1.0"
edition = "2021"
publish = false

[dependencies]
bevy = { version = "=0.17.3", default-features = false, features = ["std", "bevy_state", "bevy_asset", "bevy_scene", "bevy_color", "bevy_camera", "bevy_light", "bevy_pbr", "bevy_render", "bevy_core_pipeline", "bevy_ui", "bevy_text", "bevy_window", "bevy_gltf", "bevy_log"] }
rand = "=0.9.5"
