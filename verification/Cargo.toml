[package]
name = "adsmt-emit-rocq"
version = "1.0.0"
edition = "2021"
publish = false

[dependencies]
ciborium = "0.2"
