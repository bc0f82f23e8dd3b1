[package]
name = "hayro_raster"
version = "0.1.0"
edition = "2021"
publish = false

[dependencies]
base64 = "0.22"
image = { version = "0.25", default-features = false, features = ["png"] }
kurbo = "0.12"
log = "0.4"
rayon = "1"
xmlwriter = "0.1"
