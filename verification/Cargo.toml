[package]
name = "skelanim"
version = "0.1.0"
edition = "2021"
publish = false

[dependencies]
glam = { version = "*", features = ["serde", "bytemuck"] }
bytemuck = "*"
serde = { version = "*", features = ["derive"] }
serde_json = "*"
