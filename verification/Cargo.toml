[package]
name = "pptx_render"
version = "0.1.0"
edition = "2021"
publish = false

[dependencies]
quick-xml = "0.37"
zip = { version = "2", default-features = false, features = ["deflate"] }
anyhow = "1"
clap = { version = "4", features = ["derive"] }
tiny-skia = "0.11"
fontdb = "0.21"
ttf-parser = "0.24"
image = { version = "0.25", default-features = false, features = ["png", "jpeg", "gif", "bmp"] }
