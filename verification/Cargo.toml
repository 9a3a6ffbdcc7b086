[package]
name = "lumol"
version = "0.1.0"
edition = "2021"
publish = false

[dependencies]
log = "=0.4.34"
rand = "0.5"
rayon = "=1.12.0"
special = "=0.10.3"
toml = "=0.8.23"
