[package]
name = "private_deposit"
version = "0.1.0"
edition = "2021"
publish = false

[dependencies]
ark-bn254 = "=0.6.0"
ark-ec = "=0.6.0"
ark-ff = "=0.6.0"
ark-serialize = "=0.6.0"
clap = { version = "=4.6.7", features = ["derive"] }
eyre = "=0.6.14"
figment = "=0.10.19"
itertools = "=0.14.0"
num-bigint = "=0.4.8"
rand = "=0.8.8"
rand_chacha = "=0.3.1"
serde = { version = "=1.0.229", features = ["derive"] }
taceo-ark-babyjubjub = "=0.6.0"
taceo-poseidon2 = "=0.3.1"
tracing = "=0.1.44"
tracing-subscriber = "=0.3.23"
