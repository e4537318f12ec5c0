[package]
name = "cbz-thumbnailer"
version = "0.1.0"
edition = "2021"
publish = false

[dependencies]
clap = { version = "*", features = ["derive"] }
color-eyre = "*"
either = "*"
env_logger = "*"
hex = { version = "*", features = ["serde"] }
image = { version = "*", default-features = false, features = ["bmp", "dds", "exr", "ff", "gif", "hdr", "ico", "jpeg", "png", "pnm", "qoi", "tga", "tiff", "webp"] }
log = "*"
open = "*"
serde = { version = "*", features = ["derive"] }
sha2 = "*"
tap = "*"
thiserror = "*"
toml = "*"
walkdir = "*"
zip = { version = "*", default-features = false, features = ["deflate"] }
