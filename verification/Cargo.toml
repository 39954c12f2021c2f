[package]
name = "rusty_rook"
version = "0.1.0"
edition = "2021"
publish = false

[dependencies]
dashmap = "6"
lazy_static = "1"
log = "0.4"
once_cell = "1"
rand = "0.9"
rayon = "1"
regex = "1"
rustc-hash = "2"
simple_file_logger = "*"
smallvec = "1"
