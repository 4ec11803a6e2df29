[package]
name = "nucleo_nvim"
version = "0.1.0"
edition = "2021"
publish = false

[dependencies]
mimalloc = "=0.1.52"
mlua = { version = "=0.9.9", features = ["lua54", "module"] }
