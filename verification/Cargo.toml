[package]
name = "rt_utils"
version = "0.1.0"
edition = "2021"
publish = false

[dependencies]
anyhow = "1"
either = "1"
libc = "0.2"
log = "0.4"
nix = { version = "0.29", features = ["sched", "mount", "signal", "process"] }
eva-rt-common = "*"

[dev-dependencies]
nom = "8"
