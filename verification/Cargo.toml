[package]
name = "fractal_viewer"
version = "0.1.0"
edition = "2021"
publish = false

[dependencies]
serde = { version = "1", features = ["derive"] }
serde_json = "1"
log = "0.4"
dirs = "*"
base64 = "0.22"
image = { version = "0.25", default-features = false, features = ["png"] }
gltf-json = "*"
toml = "*"
fast-surface-nets = "*"
