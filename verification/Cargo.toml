[package]
name = "show"
version = "0.1.0"
edition = "2021"
publish = false

[dependencies]
memchr = "2"
log = "0.4"
ansi_term = "0.12"
clap = "2"
fern = "0.6"
