[package]
name = "fat"
version = "0.1.0"
edition = "2021"
publish = false

[dependencies]
typed-path = "*"
sha2 = "0.10"
xxhash-rust = { version = "0.8", features = ["xxh3"] }
blake3 = { version = "1", features = ["pure"] }
hex = "0.4"
serde = { version = "1", features = ["derive"] }
bitflags = "2"
crossbeam = "0.8"
walkdir = "2"
thiserror = "*"
