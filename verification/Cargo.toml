[package]
name = "wbphotogrammetry"
version = "0.1.0"
edition = "2021"
publish = false

[dependencies]
kamadak-exif = "*"
image = { version = "*", default-features = false, features = ["png", "jpeg", "tiff"] }
nalgebra = "*"
rayon = "*"
serde = { version = "*", features = ["derive"] }
serde_json = "*"
thiserror = "*"
wbraster = "*"
wbprojection = "*"
