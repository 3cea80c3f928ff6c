[package]
name = "edgevec"
version = "0.1.0"
edition = "2021"
publish = false

[dependencies]
bitvec = "1"
bytemuck = "1"
crc32fast = "1"
postcard = { version = "1", features = ["alloc"] }
rand = "0.8"
rand_chacha = "0.3"
serde = { version = "1", features = ["derive"] }
serde_json = "1"
thiserror = "*"
