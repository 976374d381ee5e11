[package]
name = "keyscan"
version = "0.1.0"
edition = "2021"
publish = false

[dependencies]
bitcoin = "0.27"
secp256k1 = { version = "0.20", features = ["rand-std"] }
num_cpus = "1"
serde-pickle = "1"
tokio = { version = "1", features = ["rt-multi-thread", "macros"] }
