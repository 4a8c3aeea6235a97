[package]
name = "bar_data"
version = "0.1.0"
edition = "2021"
publish = false

[dependencies]
ddsfile = "=0.5.2"
image = { version = "=0.25.10", default-features = false, features = ["png", "jpeg", "tga", "bmp"] }
zip = { version = "=2.6.1", default-features = false, features = ["deflate"] }
directories = "=5.0.1"
tracing = "=0.1.44"
tracing-subscriber = { version = "=0.3.23", default-features = false, features = ["std"] }
