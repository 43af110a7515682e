[package]
name = "kvlite"
version = "0.1.2"
edition = "2021"
publish = false

[dependencies]
nix = { version = "*", features = ["fs"] }
