[package]
name = "chunkmeter"
version = "0.1.0"
edition = "2021"
publish = false

[dependencies]
csv = "*"
plotters = "*"
socket2 = "*"
