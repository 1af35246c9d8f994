[package]
name = "fractals"
version = "0.1.0"
edition = "2021"
publish = false

[dependencies]
rand = "=0.9.5"
egui = "=0.37.0"
eframe = { version = "=0.37.0", default-features = false, features = ["default_fonts", "glow", "x11"] }
