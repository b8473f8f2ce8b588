[package]
name = "oku_core"
version = "0.1.0"
edition = "2021"
publish = false

[dependencies]
rustc-hash = "2"
taffy = "*"
cosmic-text = "*"
tiny-skia = "*"
softbuffer = "*"
winit = "0.30"
tokio = { version = "1", features = ["rt-multi-thread", "sync"] }
chrono = "0.4"
once_cell = "1"
glam = "*"
bytemuck = { version = "1", features = ["derive"] }
wgpu = "*"
parley = "*"
