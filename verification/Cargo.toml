[package]
name = "falling_blocks"
version = "0.1.0"
edition = "2021"
publish = false

[dependencies]
arrayvec = "0.7"
crossterm = "0.25"
strum = "0.24"
strum_macros = "0.24"
tui = "0.19"
