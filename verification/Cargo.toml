[package]
name = "health_monitor"
version = "0.1.0"
edition = "2021"
publish = false

[dependencies]
crossterm = "*"
ratatui = "*"
sysinfo = "*"
walkdir = "*"
