[package]
name = "rudo"
version = "0.1.0"
edition = "2021"
publish = false

[dependencies]
dirs = "*"
gtk4 = "*"
gtk4-layer-shell = "*"
notify = "*"
serde = { version = "1", features = ["derive"] }
serde_json = "1"
thiserror = "*"
wayland-client = "*"
wayland-protocols-wlr = { version = "*", features = ["client"] }
