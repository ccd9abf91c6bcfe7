[package]
name = "wgstd"
version = "0.1.0"
edition = "2021"
publish = false

[dependencies]
wgpu = "0.19"
bytemuck = "1"
