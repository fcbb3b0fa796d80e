[package]
name = "contour_trace"
version = "0.1.0"
edition = "2021"
publish = false

[dependencies]
argparse = "0.2"
device_query = "*"
image = { version = "*", default-features = false, features = ["png", "jpeg"] }
