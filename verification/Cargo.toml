[package]
name = "yolo_pipeline"
version = "0.1.0"
edition = "2021"
publish = false

[dependencies]
image = "=0.25.10"
imageproc = "=0.24.1"
ab_glyph = "=0.2.32"
rand = "=0.8.8"
chrono = "=0.4.45"
rbase64 = "=2.0.3"
figment = { version = "=0.10.19", features = ["toml"] }
serde = { version = "=1.0.229", features = ["derive"] }
thiserror = "=1.0.69"
dirs = "=5.0.1"
ureq = { version = "=2.12.1", default-features = false }
