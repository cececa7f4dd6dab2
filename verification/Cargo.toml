[package]
name = "speedyspartan"
version = "0.1.0"
edition = "2021"
publish = false

[dependencies]
ark-ff = "0.4"
ark-ec = "0.4"
ark-bls12-381 = "0.4"
ark-std = "0.4"
ark-serialize = "0.4"
ark-r1cs-std = "0.4"
ark-relations = "0.4"
sha3 = "0.10"
digest = "0.10"
