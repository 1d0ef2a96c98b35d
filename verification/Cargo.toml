[package]
name = "balloons"
version = "0.1.0"
edition = "2021"
publish = false

[dependencies]
blake2b-rs = "=0.2.0"

[dev-dependencies]
blake2b_simd = "=1.0.5"
