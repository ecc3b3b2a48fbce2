[package]
name = "statekit"
version = "0.1.0"
edition = "2021"
publish = false

[dependencies]
aes-gcm = "0.10"
flexbuffers = "*"
paste = "1"
rand = "0.8"
serde = "1"
