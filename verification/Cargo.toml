[package]
name = "bevy_animation_graph_core"
version = "0.1.0"
edition = "2021"
publish = false

[dependencies]
bevy = { version = "0.16", default-features = false, features = ["std"] }
uuid = { version = "1", features = ["v4"] }
egui = { version = "0.31", default-features = false }
