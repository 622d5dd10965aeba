[package]
name = "nca_fs"
version = "0.1.0"
edition = "2021"
publish = false

[dependencies]
aes = "0.7"
block-modes = "0.8"
xts-mode = "0.4"
