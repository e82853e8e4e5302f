[package]
name = "krun_virtiofs"
version = "0.1.0"
edition = "2021"
publish = false

[dependencies]
crossbeam-channel = "0.5"
imago = { version = "*", features = ["sync-wrappers"] }
libc = "0.2"
log = "0.4"
nix = "*"
vm-memory = { version = "*", features = ["backend-mmap"] }
