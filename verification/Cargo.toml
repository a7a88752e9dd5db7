[package]
name = "secure_ipc"
version = "0.1.0"
edition = "2021"
publish = false

[dependencies]
lazy_static = "1.4"
riscv = "0.10"
