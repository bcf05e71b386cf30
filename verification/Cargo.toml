[package]
name = "row_de"
version = "0.1.0"
edition = "2021"
publish = false

[dependencies]
anyhow = "1"
hrana-client-proto = "*"
serde = "1"
