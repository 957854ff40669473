[package]
name = "raster_engine"
version = "0.1.0"
edition = "2021"
publish = false

[dependencies]
image = "=0.24.9"
imageproc = "=0.23.1"
rustfft = "=6.4.1"
num-complex = "=0.4.6"
base64 = "=0.21.7"
serde = { version = "1", features = ["derive"] }
