[package]
name = "reduction_server"
version = "0.1.0"
edition = "2021"
publish = false

[dependencies]
clap = { version = "4", features = ["derive"] }
env_logger = "0.11"
log = "0.4"
half = "2"
libc = "0.2"
aligned_box = "*"
num-traits = "0.2"
