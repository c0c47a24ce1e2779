[package]
name = "image_sequencer"
version = "0.1.0"
edition = "2021"
publish = false

[dependencies]
walkdir = "2"
egui_extras = { version = "0.22", features = ["image"] }
image = { version = "0.24", default-features = false, features = ["png", "jpeg"] }
egui = "0.22"
eframe = { version = "0.22", default-features = false, features = ["glow", "default_fonts"] }
notify = "6"
rfd = "0.11"

[dev-dependencies]
tempfile = "3"
