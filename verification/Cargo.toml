[package]
name = "groth16_verifier"
version = "0.1.0"
edition = "2021"
publish = false

[dependencies]
ark-bls12-381 = "*"
ark-ec = "*"
ark-ff = "*"
ark-serialize = "*"
num-bigint = "*"
serde = { version = "*", features = ["derive"] }
serde_json = "*"

[dev-dependencies]
hex = "*"
