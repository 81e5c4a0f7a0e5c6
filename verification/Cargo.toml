[package]
name = "rml_rtmp"
version = "0.8.0"
edition = "2021"
publish = false

[dependencies]
byteorder = "1"
bytes = "1"
