[package]
name = "ws_frame"
version = "0.1.0"
edition = "2021"
publish = false

[dependencies]
byteorder = "1"
bytes = "1"
futures = "0.1"
rand = "0.8"
