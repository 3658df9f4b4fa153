[package]
name = "serial_console"
version = "0.1.0"
edition = "2021"
publish = false

[dependencies]
e310x-hal = "=0.9.3"
nb = "=1.1.0"
riscv = "=0.6.0"
