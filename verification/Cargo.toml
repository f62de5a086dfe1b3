[package]
name = "artificial_systems"
version = "0.1.0"
edition = "2021"
publish = false

[dependencies]
wasm-bindgen = "=0.2.130"
js-sys = "=0.3.107"
console_error_panic_hook = "=0.1.7"
rand = "=0.8.8"
bevy = { version = "0.16", default-features = false, features = ["std", "bevy_sprite", "bevy_window", "bevy_core_pipeline", "bevy_render"] }
