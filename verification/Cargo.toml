[package]
name = "timelapse_core"
version = "0.1.0"
edition = "2021"
publish = false

[dependencies]
base64 = "*"
sanitize-filename = "*"
