[package]
name = "riscvrogue"
version = "0.1.0"
edition = "2021"
publish = false

[dependencies]
rand_core = "0.6"
rand_xoshiro = "0.6"
virtio-drivers = "*"
embedded-graphics = "0.8"
ibm437 = "*"
sbi-rt = { version = "0.0.3", features = ["legacy"] }
