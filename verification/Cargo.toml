[package]
name = "absacc"
version = "0.1.0"
edition = "2021"
publish = false

[dependencies]
cosmos-sdk-proto = "=0.27.0"
cosmwasm-std = { version = "=3.0.10", features = ["cosmwasm_2_0"] }
prost = "=0.13.5"
