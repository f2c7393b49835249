[package]
name = "lvim_zpm"
version = "0.1.0"
edition = "2021"
publish = false

[dependencies]
zellij-tile = "*"
