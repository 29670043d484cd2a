[package]
name = "double_pendulum"
version = "0.1.0"
edition = "2021"
publish = false

[dependencies]
num_cpus = "1"
csv = "1"
gif = "0.13"
image = { version = "0.25", default-features = false, features = ["png"] }
plotters = { version = "0.3", default-features = false, features = ["bitmap_backend", "bitmap_encoder", "ab_glyph", "line_series", "point_series"] }
