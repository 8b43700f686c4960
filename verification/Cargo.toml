[package]
name = "anny-dock"
version = "0.1.0"
edition = "2021"
publish = false

[dependencies]
dirs = "5"
image = { version = "0.24", default-features = false, features = ["png", "jpeg"] }
resvg = "0.29"
serde = { version = "1", features = ["derive"] }
serde_json = "1"
tiny-skia = "0.8"
toml = "0.8"
usvg = "0.29"
xdgkit = "3"
