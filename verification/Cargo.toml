[package]
name = "voxelverse"
version = "0.1.0"
edition = "2021"
publish = false

[dependencies]
bevy = { version = "=0.17.3", default-features = false, features = ["std", "bevy_asset", "bevy_color", "bevy_core_pipeline", "bevy_pbr", "bevy_render", "bevy_image", "bevy_mesh", "bevy_camera", "bevy_light", "bevy_shader", "bevy_text", "bevy_ui", "bevy_ui_render", "bevy_window", "default_font"] }
bincode = "=1.3.3"
noise = "=0.9.0"
