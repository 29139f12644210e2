[package]
name = "gnitive_multipart"
version = "0.3.0"
edition = "2021"
publish = false

[dependencies]
proc-macro2 = "0.4"
quote = "0.6"
syn = { version = "0.14", features = ["full"] }
