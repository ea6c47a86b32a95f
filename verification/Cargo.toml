[package]
name = "osirs"
version = "0.1.0"
edition = "2021"
publish = false

[dependencies]
pc-keyboard = "=0.7.0"
x86_64 = { version = "=0.15.5", default-features = false, features = ["instructions"] }
pic8259 = "=0.11.0"
spin = "=0.9.9"
lazy_static = { version = "=1.5.1", features = ["spin_no_std"] }
bootloader = { version = "=0.9.35", features = ["map_physical_memory"] }
