[package]
name = "sfwm"
version = "0.1.0"
edition = "2021"
publish = false

[dependencies]
calloop = "0.13"
calloop-wayland-source = "0.3"
cosmic-text = "0.12"
egui = "0.29"
image = { version = "0.25", default-features = false, features = ["jpeg", "png", "webp"] }
input = { version = "0.9", default-features = false, features = ["udev"] }
libc = "0.2"
resvg = { version = "0.44", default-features = false }
serde = { version = "1", features = ["derive"] }
wayland-client = "0.31"
wayland-protocols = { version = "0.32", features = ["client", "staging"] }
wayland-scanner = "0.31"
xkbcommon = "0.8"
zbus = "4"
