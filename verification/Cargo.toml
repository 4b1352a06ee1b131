[package]
name = "block_join"
version = "0.1.0"
edition = "2021"
publish = false

[dependencies]
tantivy-common = "0.7"
