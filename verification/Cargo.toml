[package]
name = "jit"
version = "0.1.0"
edition = "2021"
publish = false

[dependencies]
parking_lot = "0.12"
rand = "0.8"
rand_pcg = "0.3"
thiserror = "1.0"
wasmer = "2.3"
