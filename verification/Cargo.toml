[package]
name = "termnix"
version = "0.1.0"
edition = "2021"
publish = false

[dependencies]
libc = "=0.2.191"
unicode-width = "=0.2.3"
vte = "=0.15.0"

[dev-dependencies]
noprop = "*"
