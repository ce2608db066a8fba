[package]
name = "ring_sig"
version = "0.1.0"
edition = "2021"
publish = false

[dependencies]
aes = "=0.7.5"
rand = "=0.8.8"
rsa = "=0.6.1"
sha2 = "=0.10.9"
sp-core = { version = "=21.0.0", default-features = false, features = ["full_crypto"] }
