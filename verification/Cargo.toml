[package]
name = "echolysis"
version = "0.1.0"
edition = "2021"
publish = false

[dependencies]
ahash = "=0.8.12"
dashmap = "=6.2.1"
rustc-hash = "=2.1.3"
tree-sitter = "=0.24.7"
tree-sitter-rust = "=0.23.3"
tree-sitter-python = "=0.23.6"
streaming-iterator = "=0.1.9"
rayon = "=1.12.0"
rpmalloc = "=0.2.2"
parking_lot = "=0.12.5"
futures = "=0.3.34"
tokio = { version = "=1.54.1", features = ["rt-multi-thread", "macros", "io-std", "sync", "time"] }
tower-lsp = "=0.20.0"
notify = "=7.0.0"
git2 = { version = "=0.19.0", default-features = false }
