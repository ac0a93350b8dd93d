[package]
name = "sszb"
version = "0.1.0"
edition = "2021"
publish = false

[dependencies]
bytes = "1"
typenum = "1"
smallvec = "1"
itertools = "*"
ssz_types = "*"
ethereum-types = "*"
alloy-primitives = "*"
milhouse = "*"
