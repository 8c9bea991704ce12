[package]
name = "rust_labs"
version = "0.1.0"
edition = "2021"
publish = false

[dependencies]
itertools = "=0.15.0"
rand = "=0.9.5"
clap = { version = "=4.6.7", features = ["derive"] }
thiserror = "=2.0.21"
hexx = "=0.25.0"
