[package]
name = "gem_art"
version = "0.1.0"
edition = "2021"
publish = false

[dependencies]
base64 = "0.21"
csv = "1"
image = "0.24"
imageproc = "0.23"
palette = "0.7"
rayon = "1"
rusttype = "0.9"
serde = { version = "1", features = ["derive"] }
serde_json = "1"
