[package]
name = "chordsense"
version = "0.1.0"
edition = "2021"
publish = false

[dependencies]
eframe = { version = "=0.33.3", default-features = false, features = ["default_fonts", "glow", "x11", "wayland"] }
egui_extras = { version = "=0.33.3", features = ["file", "image"] }
rodio = "=0.23.0"
