[package]
name = "atomicwm"
version = "0.1.0"
edition = "2021"
publish = false

[dependencies]
dirs = "*"
serde = { version = "*", features = ["derive"] }
toml = "*"
smithay = { version = "*", default-features = false, features = ["wayland_frontend"] }
