[package]
name = "seedtree"
version = "0.1.0"
edition = "2021"
publish = false

[dependencies]
rand = { version = "=0.8.8", features = ["small_rng"] }
lipsum = "=0.9.1"
clap = { version = "=4.6.7", features = ["derive"] }
fuser = { version = "=0.14.0", default-features = false }
libc = "=0.2.190"
