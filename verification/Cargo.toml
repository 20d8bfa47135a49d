[package]
name = "exchange_stream"
version = "0.1.0"
edition = "2021"
publish = false

[dependencies]
base64 = "0.13"
chashmap = "2"
openssl = "0.10"
ws = "0.9"
log = "0.4"
