[package]
name = "beammm_gui"
version = "0.1.0"
edition = "2021"
publish = false

[dependencies]
beammm = "*"
serde_json = "1"
egui = "0.28"
egui_extras = "0.28"
eframe = { version = "0.28", default-features = false, features = ["glow", "default_fonts"] }
env_logger = "0.11"
