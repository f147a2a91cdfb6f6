[package]
name = "powersoftau"
version = "0.1.0"
edition = "2021"
publish = false

[dependencies]
ark-bls12-377 = "=0.4.0"
ark-ec = "=0.4.2"
ark-ff = "=0.4.2"
ark-serialize = "=0.4.2"
ark-std = "=0.4.0"
blake2 = "=0.10.6"
hex = "=0.4.3"
rand = "=0.8.8"
rand_chacha = "=0.3.1"
