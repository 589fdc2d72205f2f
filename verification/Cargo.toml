[package]
name = "hub75_framebuffer"
version = "0.1.0"
edition = "2021"
publish = false

[dependencies]
embedded-dma = "0.2"
embedded-graphics = "0.8"

[dev-dependencies]
bitfield = "*"
