[package]
name = "nighterrors"
version = "0.1.0"
edition = "2021"
publish = false

[dependencies]
libc = "=0.2.191"
wayland-client = "=0.31.15"
wayland-scanner = "=0.31.11"
