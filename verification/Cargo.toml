[package]
name = "mel_pipeline"
version = "0.1.0"
edition = "2021"
publish = false

[dependencies]
anyhow = "1"
ndarray = "0.16"
num-complex = "0.4"
rustfft = "6"
serde = { version = "1", features = ["derive"] }
serde_yaml = "0.9"
