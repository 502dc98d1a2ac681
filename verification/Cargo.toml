[package]
name = "zoro"
version = "0.1.0"
edition = "2021"
publish = false

[dependencies]
zeekit = { version = "=0.7.0", features = ["groth16"] }
bellman = "=0.13.1"
bls12_381 = "=0.7.1"
ff = "=0.12.1"
rand = "=0.8.8"
rand_core = "=0.6.4"
hex = "=0.4.3"
