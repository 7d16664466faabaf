[package]
name = "multitrack_visualizer"
version = "0.1.0"
edition = "2021"
publish = false

[dependencies]
clap = { version = "4", features = ["derive"] }
fast_image_resize = "5"
image = { version = "0.25", default-features = false, features = ["png"] }
indicatif = "0.17"
midly = "0.5"
ndarray = "*"
rayon = "1"
regex = "1"
serde = { version = "1", features = ["derive"] }
serde_json = "1"
symphonia = "0.5"
video-rs = { version = "*", features = ["ndarray"] }
