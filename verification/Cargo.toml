[package]
name = "pacdef"
version = "0.1.0"
edition = "2021"
publish = false

[dependencies]
anyhow = "1"
clap = { version = "4", features = ["derive"] }
serde = { version = "1", features = ["derive"] }
serde_json = "1"
serde_yaml = "0.9"
regex = "1"
walkdir = "2"
path-absolutize = "3"
termios = "0.3"
libc = "0.2"
alpm = "*"
rust-apt = "*"
