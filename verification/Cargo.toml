[package]
name = "parallel_hash_join"
version = "0.1.0"
edition = "2021"
publish = false

[dependencies]
xxhash-rust = { version = "*", features = ["xxh3"] }
parking_lot = "*"
boxcar = "*"
rayon = "*"
rand = "0.8"
zipf = "*"
clap = { version = "*", features = ["derive"] }
