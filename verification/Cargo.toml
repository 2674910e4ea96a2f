[package]
name = "net-spider"
version = "0.1.0"
edition = "2021"
publish = false

[dependencies]
embedded-hal = "=1.0.0"
nb = "=1.1.0"
cortex-m = "=0.7.10"
cortex-m-rt = "=0.7.7"
rp2040-hal = "=0.12.0"
rp2040-boot2 = "=0.3.0"
