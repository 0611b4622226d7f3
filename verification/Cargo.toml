[package]
name = "laphone"
version = "0.1.0"
edition = "2021"
publish = false

[dependencies]
openh264 = "0.9"
sdl2 = "0.37"
libc = "0.2"
