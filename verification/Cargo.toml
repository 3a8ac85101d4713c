[package]
name = "drm_gfx"
version = "0.1.3"
edition = "2021"
publish = false

[dependencies]
embedded-graphics-core = "0.4"
line_drawing = "1"
nalgebra = "*"
drm = "*"
log = "0.4"
tokio = { version = "1", default-features = false, features = ["sync", "rt"] }
