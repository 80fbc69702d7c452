[package]
name = "ikigai_fn"
version = "0.2.0"
edition = "2021"
publish = false

[dependencies]
ikigai-core = "*"
async-trait = "*"
futures-util = "*"

[dev-dependencies]
futures = "*"
