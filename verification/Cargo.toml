[package]
name = "hhbc"
version = "0.1.0"
edition = "2021"
publish = false

[dependencies]
libc = "=0.2.190"
proc-macro2 = "1"
quote = "1"
syn = "1"
