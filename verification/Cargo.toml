[package]
name = "noteblock_studio"
version = "0.1.0"
edition = "2021"
publish = false

[dependencies]
bmp = "*"
slotmap = "*"
wavers = "*"
serde = { version = "1", features = ["derive"] }
serde_json = "1"
chrono = "*"
rodio = "*"
macroquad = "*"
cached = "*"
