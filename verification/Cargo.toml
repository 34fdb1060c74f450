[package]
name = "filtergraph"
version = "0.1.0"
edition = "2021"
publish = false

[dependencies]
bitflags = "1"
env_logger = "*"
libc = "0.2"
log = "0.4"
memoffset = "*"
once_cell = "1"
rusty_ffmpeg = "*"
