[package]
name = "x86_abi"
version = "0.1.0"
edition = "2021"

[dependencies]
target-lexicon = "0.9"
