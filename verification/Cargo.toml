[package]
name = "snake_game"
version = "0.1.0"
edition = "2021"
publish = false

[dependencies]
bevy = { version = "0.10", default-features = false, features = ["bevy_asset", "bevy_winit", "bevy_core_pipeline", "bevy_render", "bevy_sprite", "x11"] }
rand = "0.8"
console_error_panic_hook = "0.1"
tracing-wasm = "0.2"
wasm-bindgen = "0.2"
