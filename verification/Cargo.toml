[package]
name = "revhz"
version = "0.1.0"
edition = "2021"
publish = false

[dependencies]
getopts = "0.2.24"
nix = { version = "0.31.3", features = ["signal", "fs", "user", "poll", "ioctl"] }
num = "0.4.3"
