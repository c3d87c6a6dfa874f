[package]
name = "feedrick"
version = "0.2.0"
edition = "2021"
publish = false

[dependencies]
serde_json = "*"
rayon = "*"
flumedb = "*"
termion = "*"
structopt = "*"
