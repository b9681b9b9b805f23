[package]
name = "rustpass"
version = "0.1.0"
edition = "2021"
publish = false

[dependencies]
anyhow = "1"
argon2 = "0.5"
clap = { version = "4", features = ["derive"] }
nix = { version = "0.29", features = ["term"] }
protobuf = "3"
rand = "0.9"
ring = "0.17"
