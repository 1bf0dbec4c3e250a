[package]
name = "webmessage"
version = "0.1.0"
edition = "2021"
publish = false

[dependencies]
rand = "=0.8.8"
schnorr-rs = "=0.3.0"
serde_json = "=1.0.151"
sha2 = "=0.10.9"
web-time = "=1.1.0"
