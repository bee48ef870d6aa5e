[package]
name = "lidar_map"
version = "0.1.0"
edition = "2021"
publish = false

[dependencies]
image = { version = "*", default-features = false }
rppal = "*"
tokio = { version = "*", features = ["rt-multi-thread"] }
async-trait = "*"
as5600 = "*"
linux-embedded-hal = "*"
num = "*"
