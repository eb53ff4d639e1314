[package]
name = "kernel"
version = "0.1.0"
edition = "2021"
publish = false

[dependencies]
fdt = "=0.1.5"

[dev-dependencies]
redox_syscall = "=0.9.5"
