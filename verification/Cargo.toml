[package]
name = "bevy_couch_multiplayer"
version = "0.1.0"
edition = "2021"
publish = false

[dependencies]
bevy_app = "=0.19.1"
bevy_ecs = "=0.19.1"
bevy_input = { version = "=0.19.1", features = ["gamepad"] }
bevy_math = "=0.19.1"
bevy_time = "=0.19.1"
log = "0.4"
