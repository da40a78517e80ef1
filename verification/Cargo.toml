[package]
name = "rustic"
version = "0.1.0"
edition = "2021"
publish = false

[dependencies]
zstd = "=0.14.0"
rpassword = "=7.5.4"
sha2 = "*"
scrypt = "*"
aes256ctr_poly1305aes = "*"
