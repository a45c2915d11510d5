[package]
name = "kernel"
version = "0.1.0"
edition = "2021"
publish = false

[dependencies]
lazy_static = "1"
log = "0.4"
sbi-rt = "*"
