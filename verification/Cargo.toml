[package]
name = "interface"
version = "0.1.0"
edition = "2021"
publish = false

[dependencies]
url = "=2.5.8"
serde = { version = "=1.0.229", features = ["derive"] }
serde_json = "=1.0.154"
tungstenite = "=0.30.0"
bevy = { version = "=0.18.1", default-features = false, features = ["std", "multi_threaded", "bevy_asset", "bevy_state", "bevy_log", "bevy_window", "bevy_render", "bevy_core_pipeline", "bevy_ui", "bevy_ui_render", "bevy_sprite", "bevy_sprite_render", "bevy_text", "bevy_gizmos", "default_font", "png"] }
