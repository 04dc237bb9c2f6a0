[package]
name = "dtype_variant"
version = "0.1.0"
edition = "2021"
publish = false

[dependencies]
proc-macro2 = "1"
quote = "1"
syn = { version = "2", features = ["full", "extra-traits"] }
darling = "0.20"
proc-macro-crate = "3"
