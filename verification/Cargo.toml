[package]
name = "vt"
version = "0.1.0"
edition = "2021"
publish = false

[dependencies]
base64 = "0.22"
clap = { version = "4", features = ["derive"] }
ctrlc = "3"
ffmpeg-next = "7"
libc = "0.2"
image = { version = "0.25", default-features = false, features = ["png", "jpeg", "gif", "webp", "bmp", "tiff", "ico", "pnm", "hdr", "qoi", "exr"] }
terminal_size = "0.4"
ratatui = "0.29"
