[package]
name = "star_index"
version = "0.1.0"
edition = "2021"
publish = false

[dependencies]
rstar = "=0.12.2"
csv = "=1.4.0"
clap = { version = "=4.6.7", features = ["derive"] }
