[package]
name = "linux_syscalls"
version = "0.1.0"
edition = "2021"
publish = false

[dependencies]
blake2 = { version = "0.10", default-features = false }
chacha20poly1305 = { version = "0.10", default-features = false, features = ["alloc"] }
x25519-dalek = { version = "2", default-features = false, features = ["static_secrets"] }
xmas-elf = "0.9"
