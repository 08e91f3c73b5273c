[package]
name = "vlawn"
version = "0.1.0"
edition = "2021"
publish = false

[dependencies]
rand = "*"
ws = "*"
crossbeam-channel = "*"
log = "*"
simplelog = "*"
chrono = "*"
color-eyre = "*"
crossterm = "*"
ratatui = "*"
whoami = "*"
