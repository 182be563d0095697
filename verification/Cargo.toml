[package]
name = "zksync_os"
version = "0.1.0"
edition = "2021"
publish = false

[dependencies]
ruint = "1"
blake2 = "0.10"
sha2 = "0.10"
sha3 = "0.10"
ark-ff = "0.5"
ark-bls12-381 = "0.5"
alloy-rlp = "0.3"
arrayvec = "0.7"
serde = { version = "1", features = ["derive"] }
