[package]
name = "unistroke"
version = "0.1.0"
edition = "2021"
publish = false

[dependencies]
bevy = { version = "0.15", default-features = false, features = ["bevy_asset", "bevy_color", "bevy_core_pipeline", "bevy_dev_tools", "bevy_render", "bevy_sprite", "bevy_text", "bevy_ui", "bevy_window", "default_font"] }
bevy_simple_text_input = "0.10"
chrono = { version = "0.4", default-features = false, features = ["now"] }
