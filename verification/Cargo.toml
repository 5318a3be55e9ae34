[package]
name = "motsu"
version = "0.1.0"
edition = "2021"
publish = false

[dependencies]
argh = "*"
libc = "*"
glfw = "*"
luminance = "*"
luminance-derive = "*"
luminance-glfw = "*"
