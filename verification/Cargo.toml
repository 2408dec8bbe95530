[package]
name = "conway-rs"
version = "0.1.0"
edition = "2021"
publish = false

[dependencies]
clap = "2.33"
ctrlc = "3"
minifb = "0.16"
rand = "0.8"
term_size = "0.3"
