[package]
name = "shadowsocks_core"
version = "0.1.0"
edition = "2021"
publish = false

[dependencies]
hkdf = "*"
sha1 = "*"
md5 = "*"
aes-gcm = "*"
chacha20poly1305 = "*"
rand = "*"
