[package]
name = "insomni"
version = "0.1.0"
edition = "2021"
publish = false

[dependencies]
egui = "0.27"
image = { version = "0.25", default-features = false, features = ["png", "jpeg", "gif", "bmp", "webp"] }
lofty = "*"
dirs = "*"
