[package]
name = "io_uring_rb"
version = "0.1.0"
edition = "2021"
publish = false

[dependencies]
io-uring = "*"
rustix = { version = "*", features = ["mm"] }
