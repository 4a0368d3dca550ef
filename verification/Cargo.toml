[package]
name = "oracle-pool"
version = "0.1.0"
edition = "2021"
publish = false

[dependencies]
cosmwasm-schema = "1.5"
cosmwasm-std = "1.5"
cw-storage-plus = "1.2"
cw2 = "1.1"
serde_json = "1"
sha2 = "0.10"
thiserror = "1"
