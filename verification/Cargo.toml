[package]
name = "disktui_lite"
version = "0.1.0"
edition = "2021"
publish = false

[dependencies]
anyhow = "1"
crossterm = "0.28"
libc = "0.2"
nix = { version = "0.30", features = ["fs", "kmod", "mount", "reboot", "signal"] }
ratatui = "0.29"
uu_dd = "*"
