[package]
name = "dust_renderer"
version = "0.1.0"
edition = "2021"
publish = false

[dependencies]
encase = { version = "0.6", features = ["glam"] }
glam = "0.24"
wgpu = { version = "0.17", default-features = false, features = ["wgsl"] }
pollster = "0.3"
raw-window-handle = "0.5"
