[package]
name = "rustflow"
version = "0.1.0"
edition = "2021"
publish = false

[dependencies]
bevy = { version = "=0.17.3", default-features = false, features = ["bevy_asset", "bevy_render", "bevy_core_pipeline", "bevy_pbr", "bevy_gltf", "bevy_gizmos", "bevy_text", "bevy_ui", "bevy_window", "bevy_scene", "default_font", "multi_threaded"] }
