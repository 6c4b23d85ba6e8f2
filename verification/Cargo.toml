[package]
name = "hoi4_editor"
version = "0.1.0"
edition = "2021"
publish = false

[dependencies]
ahash = "0.8"
image = { version = "=0.25.10", default-features = false, features = ["bmp", "png"] }
sha2 = "=0.10.9"
