[package]
name = "brz"
version = "0.1.0"
edition = "2021"
publish = false

[dependencies]
ropey = "1"
slab = "0.4"
termion = "1"
structopt = "0.3"
failure = "0.1"
ignore = "0.4"
default = "0.1"
