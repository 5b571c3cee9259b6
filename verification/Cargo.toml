[package]
name = "flui_core"
version = "0.1.0"
edition = "2021"
publish = false

[dependencies]
smallvec = "1"
itertools = "*"
uuid = "1"
log = "0.4"
