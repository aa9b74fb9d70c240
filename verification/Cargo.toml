[package]
name = "multipass_core"
version = "0.1.0"
edition = "2021"
publish = false

[dependencies]
bls12_381 = "=0.8.0"
ff = "=0.13.1"
group = "=0.13.0"
sha2 = "=0.10.9"
hkdf = "=0.12.4"
rand = "=0.8.8"
rand_chacha = "=0.3.1"
hex = "=0.4.3"
serde = { version = "=1.0.229", features = ["derive"] }
serde_json = "=1.0.151"
sled = "=0.34.7"
statrs = "=0.16.1"
x509-parser = { version = "=0.16.0", features = ["verify"] }
ciborium = "=0.2.2"
coset = "=0.3.8"
p256 = "=0.13.2"
parking_lot = "=0.12.5"
