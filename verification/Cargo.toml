[package]
name = "tiled_texture"
version = "0.1.0"
edition = "2021"
publish = false

[dependencies]
notan = { version = "*", default-features = false }
image = { version = "*", default-features = false }
nalgebra = { version = "*", default-features = false }
egui-notify = "*"
log = "*"
