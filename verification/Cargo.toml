[package]
name = "sparql_data_preparation"
version = "0.1.0"
edition = "2021"
publish = false

[dependencies]
anyhow = "=1.0.104"
clap = { version = "=4.6.7", features = ["derive"] }
indicatif = "=0.17.11"
itertools = "=0.15.0"
rayon = "=1.12.0"
regex = "=1.13.1"
