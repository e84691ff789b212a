[package]
name = "generalized_bulletproofs"
version = "0.1.0"
edition = "2021"
publish = false

[dependencies]
ciphersuite = { version = "0.4", features = ["ristretto"] }
dalek-ff-group = "0.4"
multiexp = "0.4"
flexible-transcript = { version = "0.3", features = ["recommended"] }
rand_core = { version = "0.6", features = ["getrandom"] }
rand_chacha = "0.3"
curve25519-dalek = "4"
async-trait = "0.1"
zeroize = "1"
