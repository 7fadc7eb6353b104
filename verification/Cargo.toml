[package]
name = "rq"
version = "0.1.0"
edition = "2021"
publish = false

[dependencies]
clap = "=4.6.7"
simd-json = "=0.18.1"
