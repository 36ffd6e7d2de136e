[package]
name = "procmon"
version = "0.1.0"
edition = "2021"
publish = false

[dependencies]
unicode-width = "*"
sysinfo = "*"
ratatui = "*"
crossterm = "*"
color-eyre = "*"
