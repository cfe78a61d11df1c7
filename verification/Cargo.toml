[package]
name = "fs_indexer"
version = "0.1.0"
edition = "2021"
publish = false

[dependencies]
sha1 = "0.6"
rusqlite = { version = "*", features = ["bundled"] }
clap = "*"
log = "*"
