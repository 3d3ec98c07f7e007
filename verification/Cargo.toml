[package]
name = "veltro"
version = "0.1.0"
edition = "2021"
publish = false

[dependencies]
chrono = "=0.4.45"
clap = { version = "=4.6.7", features = ["derive"] }
crossbeam-channel = "=0.5.17"
ctrlc = "=3.5.2"
dashmap = "=6.2.1"
notify = "=8.2.1"
rayon = "=1.12.0"
regex = "=1.13.1"
serde = { version = "=1.0.229", features = ["derive"] }
serde_yaml = "=0.9.34"
tree-sitter = "=0.27.1"
tree-sitter-dart = "=0.2.0"
walkdir = "=2.5.0"
xxhash-rust = { version = "=0.8.19", features = ["xxh3"] }
