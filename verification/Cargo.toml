[package]
name = "life_sim"
version = "0.1.0"
edition = "2021"
publish = false

[dependencies]
bevy = { version = "=0.14.2", default-features = false, features = ["bevy_color"] }
rand = "0.8"
ron = "0.8"
serde = { version = "1", features = ["derive"] }
