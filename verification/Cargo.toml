[package]
name = "slabfs"
version = "0.1.0"
edition = "2021"
publish = false

[dependencies]
slab = "*"
fuse-backend-rs = "*"
libc = "*"
log = "*"
env_logger = "*"
