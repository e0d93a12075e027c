[package]
name = "stark_dsl"
version = "0.1.0"
edition = "2021"
publish = false

[dependencies]
anyhow = "=1.0.104"
bitcoin = "=0.32.102"
itertools = "=0.13.0"
num-traits = "=0.2.19"
sha2 = "=0.10.9"

[dev-dependencies]
rand = "0.8"
rand_chacha = "0.3"
