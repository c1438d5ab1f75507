[package]
name = "img_sort"
version = "0.1.0"
edition = "2021"
publish = false

[dependencies]
chrono = "0.4"
clap = { version = "4", features = ["derive"] }
globwalk = "0.9"
kamadak-exif = "0.5"

[dev-dependencies]
image = { version = "0.24", default-features = false, features = ["png", "jpeg"] }
tempfile = "3"
