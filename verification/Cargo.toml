[package]
name = "weid"
version = "0.1.0"
edition = "2021"
publish = false

[dependencies]
anyhow = "1"
clap_lex = "*"
termimad = "*"
