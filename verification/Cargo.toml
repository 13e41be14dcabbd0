[package]
name = "plonk_evaluation"
version = "0.1.0"
edition = "2021"
publish = false

[dependencies]
group = "0.12"
ark-std = "0.3"
colored = "2"
