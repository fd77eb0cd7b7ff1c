[package]
name = "fast_desmos2"
version = "0.1.0"
edition = "2021"
publish = false

[dependencies]
bytemuck = { version = "1", features = ["derive"] }
color-eyre = "0.6"
glam = { version = "*", features = ["bytemuck"] }
skrifa = "*"
