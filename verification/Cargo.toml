[package]
name = "jstz_request_logger"
version = "0.1.0"
edition = "2021"
publish = false

[dependencies]
tezos_crypto_rs = "*"

[dev-dependencies]
serde_json = "*"
