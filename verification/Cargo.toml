[package]
name = "kerbin"
version = "0.1.0"
edition = "2021"
publish = false

[dependencies]
ropey = "=1.6.1"
unicode-segmentation = "=1.13.3"
unicode-width = "=0.2.3"
regex-cursor = "=0.1.5"
