[package]
name = "sysparts"
version = "0.1.0"
edition = "2021"
publish = false

[dependencies]
ftree = "*"
linux-raw-sys = { version = "*", features = ["auxvec", "elf", "elf_uapi", "general", "prctl"] }
syscalls = "*"
