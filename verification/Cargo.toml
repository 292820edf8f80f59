[package]
name = "debug_agent"
version = "0.1.0"
edition = "2021"
publish = false

[dependencies]
gdbstub = { version = "0.7", default-features = false }
gdbstub_arch = { version = "0.3", default-features = false }
r-efi = "*"
