[package]
name = "spellcard"
version = "0.1.0"
edition = "2021"
publish = false

[dependencies]
anyhow = "=1.0.104"
bytemuck = "=1.25.2"
clap = { version = "=4.6.7", features = ["derive"] }
gif = "=0.12.0"
image = "=0.24.9"
pollster = "=0.3.0"
wgpu = "0.16"
