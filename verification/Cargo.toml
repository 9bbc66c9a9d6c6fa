[package]
name = "duckvert"
version = "0.1.0"
edition = "2021"
publish = false

[dependencies]
image = { version = "=0.25.10", default-features = false, features = ["png", "jpeg", "bmp", "tiff", "gif", "webp", "ico"] }
lopdf = { version = "=0.46.0", default-features = false }
printpdf = "=0.7.0"
walkdir = "=2.5.0"
