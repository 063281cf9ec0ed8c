[package]
name = "nekowm"
version = "0.1.0"
edition = "2021"
publish = false

[dependencies]
smithay = "*"
tracing = "*"
tracing-subscriber = "*"
