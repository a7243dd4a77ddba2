[package]
name = "revision"
version = "0.1.0"
edition = "2021"
publish = false

[dependencies]
rusqlite = { version = "*", features = ["bundled", "series"] }
serde_json = "1"
tiny-skia = "0.11"
cosmic-text = "*"
winit = "0.30"
softbuffer = "0.4"
thiserror = "2"
realfft = "3"
