[package]
name = "kernel"
version = "0.1.0"
edition = "2021"
publish = false

[dependencies]
noto-sans-mono-bitmap = { version = "=0.4.0", features = ["size_16", "size_20"] }
limine = "=0.6.5"
x86_64 = { version = "=0.15.5", default-features = false, features = ["instructions", "abi_x86_interrupt"] }
spin = "=0.12.3"
log = "=0.4.35"
pc-keyboard = "=0.9.0"
pic8259 = "=0.11.0"
lazy_static = "=1.5.1"
talc = "=5.1.1"
spinning_top = "=0.4.0"
bytemuck = { version = "=1.25.2", features = ["derive"] }
