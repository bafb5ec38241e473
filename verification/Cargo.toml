[package]
name = "spectra"
version = "0.1.0"
edition = "2021"
publish = false

[dependencies]
luminance = "=0.47.0"
nalgebra = "*"
serde = { version = "=1.0.229", features = ["derive"] }
serde_json = "=1.0.154"
wavefront_obj = "=11.0.0"
