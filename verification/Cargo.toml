[package]
name = "argon2"
version = "0.1.0"
edition = "2021"
publish = false

[dependencies]
blake2 = "0.10"
password-hash = "0.4"
rayon = "1"
zeroize = "1"
