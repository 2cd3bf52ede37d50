[package]
name = "simplefs"
version = "0.1.0"
edition = "2021"
publish = false

[dependencies]
env_logger = "0.11"
fuser = { version = "0.15", default-features = false }
libc = "0.2"
log = "0.4"
