[package]
name = "bangs"
version = "0.1.0"
edition = "2021"
publish = false

[dependencies]
rouille = { version = "*", default-features = false }
