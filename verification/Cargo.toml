[package]
name = "symfetch"
version = "0.1.0"
edition = "2021"
publish = false

[dependencies]
failure = "*"
indicatif = "*"
lazy_static = "*"
rayon = "*"
reqwest = { version = "*", default-features = false, features = ["blocking"] }
structopt = "*"
strum = "*"
strum_macros = "*"
