[package]
name = "allox"
version = "0.1.0"
edition = "2021"
publish = false

[dependencies]
syscalls = "=0.6.18"
libc = "=0.2.191"
rand = "=0.9.5"
png = "0.17"
nix = "0.26"
