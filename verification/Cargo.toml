[package]
name = "wake_implementation"
version = "0.1.0"
edition = "2021"
publish = false

[dependencies]
ark-bls12-377 = "=0.3.0"
ark-ec = "=0.3.0"
ark-ff = "=0.3.0"
ark-gm17 = "=0.3.0"
ark-relations = "=0.3.0"
bulletproofs = "=4.0.0"
csv = "=1.4.0"
curve25519-dalek-ng = "=4.1.1"
merlin = "=3.0.0"
num = "=0.4.3"
num-bigint = "=0.4.8"
rand = "=0.8.8"
sha2 = "=0.9.9"
