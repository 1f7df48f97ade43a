[package]
name = "memguard"
version = "0.1.0"
edition = "2021"
publish = false

[dependencies]
byte-unit = "4"
clap = { version = "4", features = ["derive"] }
env_logger = "0.10"
log = "0.4"
sysinfo = "0.29"
