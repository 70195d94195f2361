[package]
name = "dd-terrain"
version = "0.1.0"
edition = "2021"
publish = false

[dependencies]
array-init = "2"
itertools = "0.10"
rayon = "1"
cgmath = "0.18"
fastanvil = { version = "*", default-features = false }
fastnbt = "2"
glium = "0.32"
glutin = "0.29"
image = { version = "0.24", default-features = false, features = ["png"] }
imgui = "0.11"
imgui-glium-renderer = "0.11"
imgui-winit-support = "0.11"
