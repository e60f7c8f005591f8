[package]
name = "mandelplot"
version = "0.1.0"
edition = "2021"
publish = false

[dependencies]
clap = "*"
image = { version = "*", default-features = false, features = ["png"] }
num = "*"
