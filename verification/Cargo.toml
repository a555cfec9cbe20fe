[package]
name = "fuzzy_store"
version = "0.1.0"
edition = "2021"
publish = false

[dependencies]
anyhow = "1"
log = "0.4"
memmap2 = "0.9"
