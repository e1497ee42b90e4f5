[package]
name = "identity_core"
version = "0.1.0"
edition = "2021"
publish = false

[dependencies]
sha3 = "=0.12.0"
jsonwebtoken = { version = "=11.1.0", features = ["rust_crypto"] }
base64 = "=0.23.1"
chunked_transfer = "=1.5.0"
uuid = { version = "=1.27.0", features = ["v4"] }
