[package]
name = "strict_types"
version = "0.1.0"
edition = "2021"
publish = false

[dependencies]
amplify = "*"
baid58 = "*"
base64 = "*"
blake3 = "*"
strict_encoding = "*"
