[package]
name = "turnfight"
version = "0.1.0"
edition = "2021"
publish = false

[dependencies]
hecs = "*"
rand = "*"
ratatui = "*"
color-eyre = "*"
