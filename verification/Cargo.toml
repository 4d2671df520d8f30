[package]
name = "hiren"
version = "0.1.0"
edition = "2021"
publish = false

[dependencies]
anyhow = "=1.0.104"
cosmic-text = "=0.14.2"
dirs = "=7.0.0"
env_logger = "=0.11.11"
fuzzy-matcher = "=0.3.7"
libc = "=0.2.191"
log = "=0.4.35"
meval = "=0.2.0"
notify = "=8.2.1"
serde = { version = "=1.0.229", features = ["derive"] }
serde_json = "=1.0.154"
softbuffer = "=0.4.8"
tiny-skia = "=0.11.4"
tokio = { version = "=1.54.1", features = ["full"] }
toml = "=0.8.23"
unicode-segmentation = "=1.13.3"
wayland-client = "=0.31.15"
wayland-protocols-wlr = { version = "=0.3.12", features = ["client"] }
winit = "=0.30.13"
xkbcommon-dl = "=0.4.2"
