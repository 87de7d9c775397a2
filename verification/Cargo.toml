[package]
name = "kernel_loader"
version = "0.1.0"
edition = "2021"
publish = false

[dependencies]
bincode = "=2.0.1"
uefi = "=0.26.0"
uefi-services = { version = "=0.23.0", default-features = false, features = ["logger"] }
