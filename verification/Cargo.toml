[package]
name = "osc_midi"
version = "0.1.0"
edition = "2021"
publish = false

[dependencies]
midir = "*"
anyhow = "*"

[dev-dependencies]
rosc = "*"
