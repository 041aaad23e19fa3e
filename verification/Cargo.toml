[package]
name = "tachyon"
version = "0.1.0"
edition = "2021"
publish = false

[dependencies]
nucleo = "*"
mlua = { version = "*", features = ["lua54", "vendored"] }
