[package]
name = "ori_core"
version = "0.1.0"
edition = "2021"
publish = false

[dependencies]
glam = "*"
glutin = "*"
tracing = "0.1"
x11rb = { version = "*", features = ["allow-unsafe-code"] }
xkbcommon = { version = "*", features = ["x11"] }
