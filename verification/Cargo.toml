[package]
name = "atlas_maker"
version = "0.1.0"
edition = "2021"
publish = false

[dependencies]
egui = "0.31"
eframe = { version = "0.31", default-features = false, features = ["default_fonts", "glow", "x11"] }
image = { version = "0.25", default-features = false, features = ["png", "jpeg", "bmp", "gif", "tga", "webp"] }
rfd = "0.15"
serde = { version = "1", features = ["derive"] }
serde_json = "1"
