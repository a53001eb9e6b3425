[package]
name = "evolution_of_trust"
version = "0.1.0"
edition = "2021"
publish = false

[dependencies]
dyn-clone = "1"
rand = "0.8"
