[package]
name = "image_sifter"
version = "0.1.0"
edition = "2021"
publish = false

[dependencies]
eframe = { version = "=0.37.0", default-features = false, features = ["default_fonts", "glow", "x11"] }
egui_extras = "=0.37.0"
image = { version = "=0.25.10", default-features = false, features = ["jpeg", "png"] }
jpeg-decoder = "=0.3.2"
rfd = { version = "=0.17.2", default-features = false, features = ["xdg-portal"] }
