[package]
name = "enoch_auth"
version = "0.1.0"
edition = "2021"
publish = false

[dependencies]
chacha20poly1305 = "0.10"
getrandom = "0.2"
hkdf = "0.12"
num-bigint = "0.4"
num-traits = "0.2"
pbkdf2 = "0.12"
sha1 = "0.10"
sha2 = "0.10"
