[package]
name = "calculator_engine"
version = "0.1.0"
edition = "2021"
publish = false

[dependencies]
rustc_apfloat = "*"
crossbeam = "*"
ansi_term = "*"
linefeed = "*"
