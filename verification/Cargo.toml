[package]
name = "gm8core"
version = "0.1.0"
edition = "2021"
publish = false

[dependencies]
rect_packer = "=0.2.1"
getopts = "=0.2.24"
glfw = "=0.63.0"
rmp3 = "=0.3.1"
