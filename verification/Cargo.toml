[package]
name = "rice"
version = "0.1.0"
edition = "2021"
publish = false

[dependencies]
serde_json = "*"
nix = { version = "*", features = ["resource"] }
controlgroup = "*"
num_cpus = "*"
procfs = "*"
signal-hook = "*"
walkdir = "*"
log = "*"
anyhow = "*"
pretty_env_logger = "*"
libc = "*"
