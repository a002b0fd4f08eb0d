[package]
name = "game_launcher"
version = "0.1.0"
edition = "2021"
publish = false

[dependencies]
eframe = { version = "=0.37.0", default-features = false, features = ["default_fonts", "glow", "x11"] }
egui = "=0.37.0"
egui_extras = { version = "=0.37.0", default-features = false }
env_logger = { version = "=0.11.11", default-features = false }
log = "=0.4.34"
rfd = { version = "=0.17.2", default-features = false, features = ["xdg-portal"] }
