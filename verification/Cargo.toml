[package]
name = "linelint"
version = "0.0.2"
edition = "2021"
publish = false

[dependencies]
clap = "4"
