[package]
name = "terminal_dialog"
version = "0.1.0"
edition = "2021"
publish = false

[dependencies]
arbitrary-chunks = "=0.4.1"
bevy = { version = "0.19", default-features = false }
textwrap = "=0.16.4"
unicode-segmentation = "=1.13.3"
yarnspinner = { version = "=0.9.0", default-features = false }
zalgo = "=0.2.0"
