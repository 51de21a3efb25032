[package]
name = "movenet_stream"
version = "0.1.0"
edition = "2021"
publish = false

[dependencies]
bincode = "1.3"
serde = { version = "1", features = ["derive"] }
libc = "0.2"
nix = { version = "0.29", features = ["ioctl", "mman"] }
v4l2-sys-mit = "*"
opencv = "*"
tflitec = "*"
