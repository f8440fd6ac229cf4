[package]
name = "hugepages"
version = "0.1.0"
edition = "2021"
publish = false

[dependencies]
libc = "*"
log = "*"
simple_logger = "*"
