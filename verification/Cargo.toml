[package]
name = "atulyaos"
version = "0.3.0"
edition = "2021"
publish = false

[dependencies]
spin = "=0.9.9"
x86_64 = { version = "=0.15.5", default-features = false, features = ["instructions"] }
bootloader_api = "=0.11.17"
lazy_static = { version = "=1.5.1", features = ["spin_no_std"] }
pic8259 = "=0.11.0"
linked_list_allocator = "=0.10.6"
