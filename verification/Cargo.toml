[package]
name = "bevy_vello"
version = "0.1.0"
edition = "2021"
publish = false

[dependencies]
vello_svg = "=0.11.0"
bevy_math = "0.17"
