[package]
name = "long-shot-rs"
version = "0.1.0"
edition = "2021"

[dependencies]
anyhow = "1"
arboard = { version = "3.4", default-features = false, features = ["image-data"] }
chrono = { version = "0.4", default-features = false, features = ["clock"] }
clap = { version = "4", default-features = false, features = ["derive", "error-context", "help", "std", "usage"] }
crossbeam-channel = "0.5"
dirs = "5"
env_logger = { version = "0.11", default-features = false, features = ["humantime"] }
evdev = "0.12"
fontdue = "0.9"
image = { version = "0.25", default-features = false, features = ["png"] }
log = "0.4"
nix = { version = "0.29", features = ["fs", "mman"] }
opencv = { version = "0.93", default-features = false, features = ["imgcodecs", "imgproc"] }
smithay-client-toolkit = { version = "0.19", default-features = false }
tempfile = "3"
wayland-client = "0.31"
wayland-protocols-wlr = { version = "0.3", features = ["client"] }
