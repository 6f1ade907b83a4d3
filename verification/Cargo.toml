[package]
name = "zkevm_circuits"
version = "0.1.0"
edition = "2021"
publish = false

[dependencies]
halo2_proofs = "=0.4.0"
itertools = "=0.15.0"
num = "=0.4.3"
