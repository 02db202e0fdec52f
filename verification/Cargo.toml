[package]
name = "camera_control"
version = "0.1.0"
edition = "2021"
publish = false

[dependencies]
libc = "0.2"
windows = { version = "*", features = ["Win32_Media_MediaFoundation", "Win32_System_Com"] }
objc2 = "*"
objc2-foundation = "*"
objc2-av-foundation = "*"
objc2-core-media = "*"
objc2-core-video = "*"
block2 = "*"
dispatch2 = "*"
opencv = "*"
