[package]
name = "quic_packet"
version = "0.1.0"
edition = "2021"
publish = false

[dependencies]
rand = "=0.8.8"
hkdf = "=0.12.4"
sha2 = "=0.10.9"
aes-gcm = "=0.10.3"
aes = "=0.8.4"
