[package]
name = "headstamp"
version = "0.1.0"
edition = "2021"
publish = false

[dependencies]
regex = "*"
strsim = "*"
clap = { version = "*", features = ["derive"] }
mktemp = "*"
rayon = "*"
