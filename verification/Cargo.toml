[package]
name = "visualgcode"
version = "0.1.0"
edition = "2021"
publish = false

[dependencies]
gcode = "0.7"
bytemuck = { version = "1", features = ["derive"] }
eframe = { version = "0.34", default-features = false, features = ["wgpu", "default_fonts", "x11"] }
egui = "0.34"
egui-wgpu = "0.34"
wgpu = "29"
rfd = "0.15"
