[package]
name = "video_capture"
version = "0.1.0"
edition = "2021"
publish = false

[dependencies]
openh264 = "0.9.3"
rtp = "*"
tokio = { version = "1", features = ["rt-multi-thread", "sync", "macros"] }
nokhwa = "0.10"
