[package]
name = "merge_to_master"
version = "0.1.0"
edition = "2021"
publish = false

[dependencies]
tes3 = "*"
glam = "*"
clap = { version = "*", features = ["derive"] }
anyhow = "*"
