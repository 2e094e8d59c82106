[package]
name = "blob_store"
version = "0.1.0"
edition = "2021"
publish = false

[dependencies]
anyhow = "=1.0.104"
bincode = "=1.3.3"
csv = "=1.4.0"
cxx = "=1.0.205"
dashmap = "=6.2.1"
hex = "=0.4.3"
itertools = "=0.15.0"
lru = "=0.19.0"
memmap2 = "=0.9.12"
parking_lot = "=0.12.5"
rusqlite = { version = "=0.41.0", features = ["blob", "bundled"] }
thiserror = "=1.0.69"

[dev-dependencies]
rand = "0.8"
tempfile = "3"
