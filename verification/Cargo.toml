[package]
name = "room"
version = "0.1.0"
edition = "2021"
publish = false

[dependencies]
env_logger = "*"
libc = "0.2"
thiserror = "1"
