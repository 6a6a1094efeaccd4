[package]
name = "zkinterface_bellman"
version = "0.1.0"
edition = "2021"
publish = false

[dependencies]
bellman = { version = "0.14", default-features = false, features = ["groth16"] }
bls12_381 = "0.8"
ff = "0.13"
rand = "0.8"
zkinterface = "1"
