[package]
name = "steamvr_launcher"
version = "0.1.0"
edition = "2021"
publish = false

[dependencies]
dirs = "=6.0.0"
winreg = "=0.55.0"
eframe = { version = "=0.31.1", default-features = false, features = ["glow", "default_fonts", "x11"] }
egui = { version = "=0.31.1", default-features = false, features = ["default_fonts"] }
rfd = { version = "0.15", default-features = false, features = ["xdg-portal", "tokio"] }
