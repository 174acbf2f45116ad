[package]
name = "niri"
version = "0.1.0"
edition = "2021"
publish = false

[dependencies]
knuffel = "3.2.0"
smithay = { version = "*", default-features = false }
