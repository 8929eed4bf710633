[package]
name = "eventlog-rs"
version = "0.1.0"
edition = "2021"
publish = false

[dependencies]
anyhow = "1"
byteorder = "1"
env_logger = "0.10"
hex = "0.4"
log = "0.4"
sha2 = "0.10"
