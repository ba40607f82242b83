[package]
name = "prestream"
version = "0.1.0"
edition = "2021"
publish = false

[dependencies]
chrono = "=0.4.45"
glow = "=0.18.0"
glfw = "=0.63.0"
png = "=0.18.1"
freetype-rs = "*"
thiserror = "=2.0.21"
