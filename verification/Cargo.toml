[package]
name = "rbar"
version = "0.1.0"
edition = "2021"
publish = false

[dependencies]
anyhow = "*"
image = { version = "*", default-features = false, features = ["png", "jpeg"] }
rand = "*"
rodio = "*"
smithay-client-toolkit = "*"
wayland-client = "*"
