[package]
name = "erlang-term"
version = "0.1.0"
edition = "2021"
publish = false

[dependencies]
flate2 = "1"
num-bigint = "0.4"
