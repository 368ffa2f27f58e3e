[package]
name = "image_index"
version = "0.1.0"
edition = "2021"
publish = false

[dependencies]
percent-encoding = "*"
tokio = { version = "*", features = ["rt-multi-thread", "sync", "time", "macros"] }
ignore = "*"
image = "*"
fast_image_resize = "*"
serde = { version = "*", features = ["derive"] }
serde_json = "*"
ipc-channel = "*"
