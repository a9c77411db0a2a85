[package]
name = "voxplay"
version = "0.1.0"
edition = "2021"
publish = false

[dependencies]
audiotags = "*"
cpal = "0.15"
hound = "3.5"
serde_json = "1"
symphonia = { version = "0.5", features = ["mp3", "aac", "isomp4"] }
walkdir = "2"
