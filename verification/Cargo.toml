[package]
name = "lc3box"
version = "0.4.0"
edition = "2021"
publish = false

[dependencies]
clap = { version = "4", features = ["derive"] }
libc = "0.2"
termios = "0.3"
