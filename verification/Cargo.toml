[package]
name = "macropol"
version = "0.1.0"
edition = "2021"
publish = false

[dependencies]
proc-macro2 = "1"
syn = { version = "1", features = ["full", "parsing", "printing"] }
quote = "1"
darling = "0.14"
