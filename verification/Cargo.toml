[package]
name = "ctlplane"
version = "0.1.0"
edition = "2021"
publish = false

[dependencies]
libc = "*"
nix = { version = "=0.29.0", features = ["process", "socket", "fs", "signal"] }
