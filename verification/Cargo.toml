[package]
name = "gifkino"
version = "0.1.0"
edition = "2021"
publish = false

[dependencies]
anyhow = "=1.0.104"
cairo-rs = "=0.22.9"
color_quant = "=1.1.0"
gif = "=0.14.2"
gtk4 = "=0.11.5"
image = { version = "=0.25.10", default-features = false, features = ["bmp", "gif", "ico", "jpeg", "png", "pnm", "qoi", "tga", "tiff"] }
libadwaita = "=0.9.2"
pangocairo = "=0.22.9"
relm4 = { version = "=0.11.0", features = ["libadwaita"] }
