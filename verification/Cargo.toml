[package]
name = "kitty_fs"
version = "0.1.0"
edition = "2021"
publish = false

[dependencies]
env_logger = "=0.11.11"
fuse = "=0.3.1"
libc = "=0.2.191"
roxmltree = "=0.10.1"
time = "=0.1.45"
