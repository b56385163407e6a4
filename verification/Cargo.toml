[package]
name = "peer_discovery"
version = "0.1.0"
edition = "2021"
publish = false

[dependencies]
alloy-primitives = "*"
alloy-rlp = { version = "*", features = ["derive"] }
ethereum-types = "*"
hex = "*"
