[package]
name = "rust-npkill"
version = "0.1.0"
edition = "2021"
publish = false

[dependencies]
crossterm = "0.25"
fs_extra = "1"
humantime = "2"
rayon = "1"
size = "*"
tui = "0.19"
