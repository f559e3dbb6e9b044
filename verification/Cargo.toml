[package]
name = "town"
version = "0.1.0"
edition = "2021"
publish = false

[dependencies]
pathfinding = "4"
itertools = "0.10"
bevy = { version = "0.10", default-features = false, features = ["bevy_asset", "bevy_render", "bevy_sprite", "bevy_core_pipeline", "png"] }
bevy_ecs_ldtk = "0.7"
bevy_ecs_tilemap = "0.10"
wasm-bindgen = "0.2"
