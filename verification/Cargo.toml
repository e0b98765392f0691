[package]
name = "subreaper"
version = "0.1.0"
edition = "2021"
publish = false

[dependencies]
ctrlc = "3"
libc = "0.2"
nix = { version = "*", features = ["process", "signal"] }
