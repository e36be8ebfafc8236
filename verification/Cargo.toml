[package]
name = "wasm_snip"
version = "0.1.0"
edition = "2021"
publish = false

[dependencies]
regex = "1"
walrus = "*"
clap = "*"
