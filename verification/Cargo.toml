[package]
name = "state_validation"
version = "0.1.0"
edition = "2021"
publish = false

[dependencies]
itertools = "0.14"
proc-macro2 = "1"
quote = "1"
syn = { version = "2", features = ["full"] }
thiserror = "2"
