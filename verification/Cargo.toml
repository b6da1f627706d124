[package]
name = "sbsh"
version = "0.1.0"
edition = "2021"
publish = false

[dependencies]
shlex = "1"
libc = "0.2"
rustyline = "*"
