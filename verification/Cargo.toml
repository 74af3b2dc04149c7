[package]
name = "homebank_csv"
version = "0.1.0"
edition = "2021"
publish = false

[dependencies]
chrono = "*"
clap = { version = "*", features = ["derive", "env"] }
csv = "*"
encoding_rs = "*"
encoding_rs_io = "*"
rusty-money = "*"
