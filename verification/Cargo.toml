[package]
name = "qvnt"
version = "0.4.1"
edition = "2021"
publish = false

[dependencies]
num-complex = "0.4"
float-cmp = "0.9"
rayon = "1.5"
clap = { version = "3.1", features = ["derive"] }
rustyline = "9.1"
