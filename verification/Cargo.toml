[package]
name = "nut_shell"
version = "0.1.0"
edition = "2021"
publish = false

[dependencies]
sha2 = { version = "0.10", default-features = false }
subtle = { version = "2", default-features = false }
