[package]
name = "jumpyball"
version = "0.1.0"
edition = "2021"
publish = false

[dependencies]
frenderer = "=0.5.8"
ultraviolet = "=0.9.2"
