[package]
name = "dummy_cc"
version = "0.1.0"
edition = "2021"
publish = false

[dependencies]
edit-distance = "2"
clap = { version = "4", features = ["derive"] }
