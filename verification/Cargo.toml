[package]
name = "pak_extractor"
version = "0.1.0"
edition = "2021"
publish = false

[dependencies]
aes = "0.8"
byteorder = "1"
cipher = { version = "0.4", features = ["alloc", "block-padding"] }
csv = "1"
ecb = "0.1"
flate2 = "1"
glob = "0.3"
indexmap = "2"
rayon = "1"
