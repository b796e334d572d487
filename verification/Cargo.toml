[package]
name = "navd"
version = "0.1.0"
edition = "2021"
publish = false

[dependencies]
log = "0.4"
memmap2 = "0.9"
serde = { version = "1", features = ["derive"] }
serialport = { version = "4", default-features = false }
