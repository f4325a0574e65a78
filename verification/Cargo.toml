[package]
name = "gptcore"
version = "1.1.0"
edition = "2021"
publish = false

[dependencies]
uefi = { version = "0.35", features = ["alloc"] }
uefi-raw = "0.11"
