[package]
name = "core64"
version = "0.1.0"
edition = "2021"
publish = false

[dependencies]
elf = "0.7"
zerocopy = { version = "0.8", features = ["derive"] }
static_assertions = "1.1"
