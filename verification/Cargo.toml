[package]
name = "hexbait"
version = "0.1.0"
edition = "2021"
publish = false

[dependencies]
quick_cache = "*"
malachite-nz = "*"
range-set-blaze = "*"
arc-swap = "*"
size_format = "*"
egui = "*"
eframe = { version = "*", default-features = false, features = ["glow", "default_fonts", "x11"] }
