[package]
name = "vimacs"
version = "0.1.0"
edition = "2021"
publish = false

[dependencies]
termios = "0.3"
