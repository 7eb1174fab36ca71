[package]
name = "bevy_hanabi"
version = "0.1.0"
edition = "2021"
publish = false

[dependencies]
bevy = { version = "=0.7.0", default-features = false, features = ["render"] }
bytemuck = { version = "=1.25.2", features = ["derive"] }
darling = "=0.13.4"
ndarray = { version = "=0.15.6", features = ["rayon"] }
serde = { version = "=1.0.229", features = ["derive"] }
syn = { version = "=1.0.109", features = ["full", "visit-mut"] }
