[package]
name = "cwbot"
version = "0.1.0"
edition = "2021"
publish = false

[dependencies]
rand = "0.8"
kanaria = "0.2"
unicode-normalization = "0.1"
anyhow = "1"
log = "0.4"
serenity = "0.12"
