[package]
name = "unblur"
version = "0.1.0"
edition = "2021"
publish = false

[dependencies]
anyhow = "1"
clap = { version = "4", features = ["derive"] }
image = "0.24"
imageproc = "0.23"
rusttype = "0.9"
rayon = "1"
