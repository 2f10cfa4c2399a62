[package]
name = "tarfs"
version = "0.1.0"
edition = "2021"
publish = false

[dependencies]
blake = "*"
hex = "*"
anyhow = "*"
bzip2 = "*"
clap = { version = "*", features = ["derive"] }
env_logger = "*"
flate2 = "*"
fuser = "*"
libc = "*"
log = "*"
tar = "*"
xz = "*"
zstd = "*"
