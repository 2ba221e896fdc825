[package]
name = "radium"
version = "0.1.0"
edition = "2021"
publish = false

[dependencies]
image = "0.25"
fontdue = "0.9"
softbuffer = "0.4"
winit = "0.30"
