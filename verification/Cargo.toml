[package]
name = "axcore"
version = "0.1.0"
edition = "2021"
publish = false

[dependencies]
xmas-elf = "*"
memory_addr = "*"
axerrno = "*"
