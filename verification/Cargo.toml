[package]
name = "playchess"
version = "0.1.0"
edition = "2021"
publish = false

[dependencies]
chess = "3.2"
ggez = "0.7"
glam = "0.20"
