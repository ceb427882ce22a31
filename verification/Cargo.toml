[package]
name = "time_tracking_nvim"
version = "0.1.0"
edition = "2021"
publish = false

[dependencies]
nvim-oxi = { version = "=0.6.0", features = ["neovim-0-11"] }
