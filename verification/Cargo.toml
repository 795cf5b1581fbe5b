[package]
name = "photorust"
version = "0.1.0"
edition = "2021"
publish = false

[dependencies]
wgpu = "=30.0.1"
pollster = "=1.0.1"
rayon = "1"
