[package]
name = "anvil_trim"
version = "0.1.0"
edition = "2021"
publish = false

[dependencies]
flate2 = "1"
clap = "4"
num_cpus = "1"
fs_extra = "1"
