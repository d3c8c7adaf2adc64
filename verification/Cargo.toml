[package]
name = "picture_genetics"
version = "0.1.0"
edition = "2021"
publish = false

[dependencies]
image = { version = "0.25", default-features = false, features = ["png", "jpeg", "webp", "bmp"] }
rand = "0.9"
rayon = "1"
pollster = "0.3"
bytemuck = { version = "1", features = ["derive"] }
futures-intrusive = "0.5"
wgpu = "22"
eframe = { version = "0.29", default-features = false, features = ["default_fonts", "wgpu", "x11"] }
egui = "0.29"
