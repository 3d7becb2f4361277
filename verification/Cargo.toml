[package]
name = "rgmatch"
version = "0.1.0"
edition = "2021"
publish = false

[dependencies]
anyhow = "1"
clap = { version = "4", features = ["derive"] }
crossbeam-channel = "0.5"
flate2 = "1"
num_cpus = "1"
rayon = "1"
