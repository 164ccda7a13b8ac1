[package]
name = "longstitch"
version = "0.1.0"
edition = "2021"
publish = false

[dependencies]
image = { version = "=0.24.9", default-features = false, features = ["png", "jpeg", "bmp", "gif"] }
rayon = "=1.12.0"
gif = "=0.13.3"
scrap = "0.5"
