[package]
name = "bevy_asset_preview"
version = "0.1.0"
edition = "2021"
publish = false

[dependencies]
bevy = { version = "=0.17.3", default-features = false, features = ["std", "async_executor", "bevy_asset", "bevy_image", "bevy_log", "bevy_color", "bevy_render", "bevy_core_pipeline", "bevy_camera", "bevy_mesh", "bevy_light", "bevy_pbr", "bevy_scene", "bevy_ui"] }
image = { version = "=0.25.10", default-features = false, features = ["webp"] }
thiserror = "=2.0.21"
