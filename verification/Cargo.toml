[package]
name = "breeding"
version = "0.1.0"
edition = "2021"
publish = false

[dependencies]
cosmwasm-std = "1.5"
cosmwasm-storage = "1.5"
cw721 = "0.18"
cw721-base = { version = "0.18", features = ["library"] }
prost = "0.12"
schemars = "0.8"
serde = { version = "1", features = ["derive"] }
