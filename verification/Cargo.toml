[package]
name = "genuary"
version = "0.1.0"
edition = "2021"
publish = false

[dependencies]
noise = { version = "=0.9.0", features = ["images"] }
bevy = { version = "=0.15.3", default-features = false, features = ["bevy_asset", "bevy_core_pipeline", "bevy_pbr", "bevy_render", "bevy_sprite", "bevy_state", "bevy_window", "png"] }
bevy_ecs_tilemap = { version = "=0.15.0", default-features = false, features = ["render"] }
