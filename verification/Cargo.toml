[package]
name = "smoltcp"
version = "0.12.0"
edition = "2021"
publish = false

[dependencies]
byteorder = { version = "1", default-features = false }
heapless = "0.8"
managed = { version = "0.8", default-features = false, features = ["alloc"] }
