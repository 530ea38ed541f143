[package]
name = "falling_leaf"
version = "0.1.0"
edition = "2021"
publish = false

[dependencies]
nalgebra-glm = "=0.21.0"
tobj = "=4.0.5"
winit = { version = "0.30", default-features = false, features = ["x11"] }
