[package]
name = "weecord"
version = "0.1.0"
edition = "2021"
publish = false

[dependencies]
discord = { version = "0.8", default-features = false }
libc = "0.2"
