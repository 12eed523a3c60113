[package]
name = "micro_xrce_dds_rs"
version = "0.1.0"
edition = "2021"
publish = false

[dependencies]
heapless = "0.8"
embassy-sync = "*"
embassy-futures = "*"
embedded-io-async = "*"
portable-atomic = "*"
