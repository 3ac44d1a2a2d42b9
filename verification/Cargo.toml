[package]
name = "name_service"
version = "0.1.0"
edition = "2021"
publish = false

[dependencies]
blake2 = "*"
ark-bls12-381 = "*"
ark-ec = "*"
ark-serialize = "*"
ark-std = "*"
