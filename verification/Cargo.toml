[package]
name = "greg"
version = "0.1.0"
edition = "2021"
publish = false

[dependencies]
anyhow = "1"
crossbeam-channel = "0.5"
crossterm = "0.28"
hound = "3.5"
midir = "0.10"
