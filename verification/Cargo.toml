[package]
name = "bl702_spi"
version = "0.1.0"
edition = "2021"
publish = false

[dependencies]
riscv = "*"
bl702-pac = "*"
embedded-hal = "1"
embedded-hal-nb = "1"
nb = "1"
embedded-time = "*"
