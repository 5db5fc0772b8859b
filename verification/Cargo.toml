[package]
name = "minesweeper"
version = "0.1.0"
edition = "2021"
publish = false

[dependencies]
bevy = { version = "=0.7.0", default-features = false, features = ["render", "bevy_winit", "png", "x11"] }
bevy_app = "=0.7.0"
bevy_core = "=0.7.0"
bevy_ecs = "=0.7.0"
bevy_log = "=0.7.0"
naia-bevy-client = "=0.10.1"
naia-bevy-server = { version = "=0.10.1", features = ["use-udp"] }
naia-bevy-shared = "=0.10.1"
naia-shared = "=0.10.0"
tracing-attributes = "=0.1.23"
