[package]
name = "save_decoder"
version = "0.1.0"
edition = "2021"
publish = false

[dependencies]
byteorder = "=1.5.0"
gvas = "=0.11.0"
oozextract = "=0.5.7"
eframe = { version = "=0.32.3", default-features = false, features = ["default_fonts", "glow", "x11"] }
rfd = { version = "=0.17.2", default-features = false, features = ["xdg-portal"] }
