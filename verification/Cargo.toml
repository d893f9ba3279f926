[package]
name = "quasar"
version = "0.1.0"
edition = "2021"
publish = false

[dependencies]
xcb = "0.9"
