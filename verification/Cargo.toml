[package]
name = "lokey"
version = "0.1.0"
edition = "2021"
publish = false

[dependencies]
sequential-storage = "=8.0.2"
embedded-storage-async = "=0.4.2"
usbd-hid = "=0.10.2"
embassy-time = "=0.5.1"
bitcode = { version = "=0.6.9", features = ["derive"] }
enumset = "=1.1.15"
