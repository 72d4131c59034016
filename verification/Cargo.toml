[package]
name = "policy_slicing"
version = "0.1.0"
edition = "2021"
publish = false

[dependencies]
arbitrary = "1"
