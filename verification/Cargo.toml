[package]
name = "replacer"
version = "0.1.0"
edition = "2021"
publish = false

[dependencies]
ansi_term = "0.12"
memmap2 = "0.9"
regex = "1"
tempfile = "3"
