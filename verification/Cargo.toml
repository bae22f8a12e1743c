[package]
name = "uengine"
version = "0.1.0"
edition = "2021"
publish = false

[dependencies]
serde = { version = "1", features = ["derive"] }
winit = { version = "0.30", default-features = false, features = ["x11"] }
glfw = { version = "*", default-features = false }
gl = "0.14"
