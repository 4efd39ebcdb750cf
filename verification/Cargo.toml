[package]
name = "atlas_baker"
version = "0.1.0"
edition = "2021"
publish = false

[dependencies]
postcard = { version = "*", features = ["alloc"] }
zstd = "*"
image = { version = "*", default-features = false, features = ["png"] }
skia-safe = "*"
