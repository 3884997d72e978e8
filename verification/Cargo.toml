[package]
name = "textplots"
version = "0.1.0"
edition = "2021"
publish = false

[dependencies]
drawille = "0.3"
rgb = "0.8"
meval = "0.2"
structopt = "0.3"
