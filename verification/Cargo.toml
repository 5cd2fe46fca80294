[package]
name = "slime_kernel"
version = "0.1.0"
edition = "2021"
publish = false

[dependencies]
fontdue = "=0.9.5"
volatile = "=0.6.1"
bootloader_api = "=0.11.17"
spin = "=0.9.9"
x86_64 = { version = "=0.15.5", default-features = false, features = ["instructions"] }
linkme = "=0.3.37"
clap = { version = "=4.6.7", features = ["derive"] }
anyhow = "=1.0.104"
bootloader = "=0.11.17"
ovmf-prebuilt = "=0.1.0-alpha.1"
