[package]
name = "codexos"
version = "0.1.0"
edition = "2021"
publish = false

[dependencies]
anyhow = "1"
ed25519-dalek = "2"
fatfs = "0.3"
getrandom = "0.3"
sha2 = "0.10"
uefi = { version = "*", features = ["alloc"] }
xmas-elf = "*"
