[package]
name = "pngme"
version = "0.1.0"
edition = "2021"
publish = false

[dependencies]
clap = { version = "4", features = ["derive"] }
crc = "3"
thiserror = "1"
