[package]
name = "aquaforge"
version = "0.1.0"
edition = "2021"
publish = false

[dependencies]
bevy = { version = "=0.18.1", default-features = false, features = ["bevy_pbr", "bevy_ui", "bevy_ui_render", "bevy_post_process", "bevy_gizmos", "bevy_gizmos_render", "bevy_window", "default_font", "tonemapping_luts", "zstd_rust"] }
rusqlite = { version = "=0.41.1", features = ["bundled"] }
