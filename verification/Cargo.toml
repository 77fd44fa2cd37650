[package]
name = "gem_keep"
version = "0.1.0"
edition = "2021"
publish = false

[dependencies]
image = "*"
kamadak-exif = "*"
rsraw = "*"
rawler = "*"
rusqlite = { version = "*", features = ["bundled"] }
walkdir = "*"
chrono = "*"
rayon = "*"
serde = { version = "*", features = ["derive"] }
serde_json = "*"
dirs = "*"
