[package]
name = "cc_bindings"
version = "0.1.0"
edition = "2021"
publish = false

[dependencies]
salsa = "0.14"
clang = { version = "*", features = ["runtime", "clang_6_0"] }
