[package]
name = "lawn_core"
version = "0.1.0"
edition = "2021"
publish = false

[dependencies]
anyhow = "1"
bytemuck = { version = "1", features = ["derive"] }
directories = "*"
glam = { version = "*", features = ["serde"] }
rand = "0.9"
rand_chacha = "0.9"
rapier3d = "*"
ron = "*"
serde = { version = "1", features = ["derive"] }
serde_json = "1"
thiserror = "2"
