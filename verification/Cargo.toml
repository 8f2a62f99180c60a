[package]
name = "frame_codec"
version = "0.1.0"
edition = "2021"
publish = false

[dependencies]
bytes = "1"
crc = "3"
heapless = "0.8"
tokio-util = { version = "0.7", default-features = false, features = ["codec"] }
