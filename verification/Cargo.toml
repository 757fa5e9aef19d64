[package]
name = "oxos"
version = "0.1.0"
edition = "2021"
publish = false

[dependencies]
bitfield = "*"
lazy_static = "1"
linked_list_allocator = "0.10"
spin = "0.9"
x86_64 = "=0.15.5"
