[package]
name = "dodge_royale"
version = "0.1.0"
edition = "2021"
publish = false

[dependencies]
bevy = { version = "=0.19.1", default-features = false, features = ["std", "bevy_log", "bevy_state", "bevy_sprite", "bevy_window"] }
clap = { version = "=4.6.7", features = ["derive"] }
color-eyre = "=0.6.5"
fastrand = "=2.5.0"
js-sys = "0.3"
rayon = "=1.12.0"
serde = { version = "=1.0.229", features = ["derive"] }
serde_json = "=1.0.154"
sqlx = { version = "=0.8.6", default-features = false, features = ["postgres", "runtime-tokio", "migrate"] }
tokio = { version = "=1.54.1", features = ["rt-multi-thread", "time", "macros"] }
wasm-bindgen = "0.2"
