[package]
name = "termset"
version = "0.1.0"
edition = "2021"
publish = false

[dependencies]
libc = "*"
nix = "*"
chrono = "*"
colored = "*"
indoc = "*"
