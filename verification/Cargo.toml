[package]
name = "falling_sand"
version = "0.1.0"
edition = "2021"
publish = false

[dependencies]
rand = "=0.8.8"
nalgebra = "=0.32.6"
wgpu = "=0.16.3"
winit = "=0.28.7"
wgpu_text = "=0.7.1"
tokio = { version = "1", features = ["macros", "rt-multi-thread"] }
env_logger = "0.10"
image = { version = "0.24", default-features = false, features = ["png"] }
bytemuck = { version = "1", features = ["derive"] }
