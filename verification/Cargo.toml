[package]
name = "bloom"
version = "0.1.0"
edition = "2021"
publish = false

[dependencies]
base64 = "0.22"
image = { version = "0.25", default-features = false, features = ["png"] }
serde = { version = "1", features = ["derive"] }
serde_json = "1"
sysinfo = "0.33"
x11rb = "0.13"
zbus = "5"
rustfft = "6"
