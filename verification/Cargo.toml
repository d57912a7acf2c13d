[package]
name = "yolo_post"
version = "0.1.0"
edition = "2021"
publish = false

[dependencies]
image = { version = "*", default-features = false }
ndarray = "*"
csv = "*"
serde_json = "*"
chrono = "*"
rand = "*"
