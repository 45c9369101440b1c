[package]
name = "kernel"
version = "0.1.0"
edition = "2021"
publish = false

[dependencies]
bootloader = "=0.11.17"
bootloader_api = "=0.11.17"
conquer-once = { version = "=0.4.0", default-features = false }
crossbeam-queue = { version = "=0.3.14", default-features = false, features = ["alloc"] }
futures-util = { version = "=0.3.34", default-features = false, features = ["alloc"] }
lazy_static = { version = "=1.5.1", features = ["spin_no_std"] }
noto-sans-mono-bitmap = "=0.3.2"
pc-keyboard = "=0.8.0"
pic8259 = "=0.11.0"
spin = "=0.9.9"
x86_64 = { version = "=0.15.5", default-features = false, features = ["instructions"] }
