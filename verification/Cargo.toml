[package]
name = "doom_core"
version = "0.1.0"
edition = "2021"
publish = false

[dependencies]
byteorder = "1"
thiserror = "1"
sdl2 = { version = "0.37", features = ["mixer"] }
bevy_ecs = "0.13"
