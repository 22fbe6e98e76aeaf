[package]
name = "pic_programmer"
version = "0.1.0"
edition = "2021"

[dependencies]
serialport = { version = "=4.10.1", default-features = false }
clap = { version = "=4.6.7", features = ["derive"] }
