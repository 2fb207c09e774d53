[package]
name = "krakeos"
version = "0.1.0"
edition = "2021"
publish = false

[dependencies]
virtio-drivers = "*"
linked_list_allocator = "*"
